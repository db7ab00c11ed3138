//! What holds of the ring operations on every input.
use crate::cyclotomic::ModularBigInt;
use crate::polynomial::convolution;
use crate::polynomial::element_hadamard;
use crate::polynomial::element_sum;
use crate::polynomial::fold;
use crate::polynomial::fold_entry;
use crate::polynomial::is_division;
use crate::polynomial::lemma_fold_divides;
use crate::polynomial::lemma_fold_of_convolution;
use crate::polynomial::lemma_negacyclic_additive;
use crate::polynomial::lemma_negacyclic_congruent;
use crate::polynomial::lemma_negacyclic_unit_left;
use crate::polynomial::lemma_negacyclic_unit_right;
use crate::polynomial::lemma_remainder_unique;
use crate::polynomial::negacyclic_entry;
use crate::polynomial::project;
use crate::polynomial::quotient;
use crate::polynomial::ring_product;
use crate::polynomial::unit;
use crate::residue::balanced;
use crate::residue::congruent;
use crate::residue::lemma_balanced_congruent;
use crate::residue::lemma_balanced_is_canonical;
use crate::residue::lemma_balanced_of_canonical;
use crate::residue::lemma_balanced_unique;
use crate::residue::lemma_congruent_arithmetic;
use crate::residue::lemma_congruent_equivalence;
use crate::residue::lower_bound;
use crate::residue::upper_bound;
use crate::traits::ring_degree;
use crate::traits::ring_modulus;
use crate::traits::Characteristic;
use crate::traits::Element;
use crate::traits::RingDescriptor;
use crate::traits::Vector;
use vstd::prelude::*;

verus! {

/// A vector that is no longer than the degree gives its own entries, reduced,
/// followed by zeros.
pub proof fn law_padding(v: Vector, n: nat, m: nat)
    requires
        v@.len() <= n,
    ensures
        project(v@, n, m) == Seq::new(
            n,
            |i: int|
                if i < v@.len() {
                    balanced(v@[i], m)
                } else {
                    0
                },
        ),
{
    lemma_balanced_of_canonical(0, m);
    assert forall|i: int| 0 <= i < n implies fold_entry(v@, n, i) == if i < v@.len() {
        v@[i]
    } else {
        0
    } by {}
    assert(project(v@, n, m) =~= Seq::new(
        n,
        |i: int|
            if i < v@.len() {
                balanced(v@[i], m)
            } else {
                0
            },
    ));
}

/// Folding a vector gives the remainder of its polynomial modulo `X^n + 1`:
/// the polynomial is a multiple of `X^n + 1` plus what folding gives, and no
/// other polynomial of degree below `n` can stand in that place.
pub proof fn law_fold_is_remainder(v: Vector, n: nat)
    requires
        n > 0,
    ensures
        is_division(v@, n, quotient(v@, n), fold(v@, n)),
        forall|q: Seq<int>, r: Seq<int>| #[trigger] is_division(v@, n, q, r) ==> r == fold(v@, n),
{
    lemma_fold_divides(v@, n);
    assert forall|q: Seq<int>, r: Seq<int>| #[trigger] is_division(v@, n, q, r) implies r == fold(
        v@,
        n,
    ) by {
        lemma_remainder_unique(v@, n, q, r, quotient(v@, n), fold(v@, n));
    }
}

/// The sum of an element with itself has twice each coefficient, reduced
/// modulo the characteristic.
pub proof fn law_doubling<R: RingDescriptor>(x: Element<R>)
    ensures
        element_sum(x@, x@, ring_modulus::<R>()) == Seq::new(
            x@.len(),
            |i: int| balanced(2 * x@[i], ring_modulus::<R>()),
        ),
{
    assert(element_sum(x@, x@, ring_modulus::<R>()) =~= Seq::new(
        x@.len(),
        |i: int| balanced(2 * x@[i], ring_modulus::<R>()),
    ));
}

/// The coefficient-wise product of an element with itself has the square of
/// each coefficient, reduced modulo the characteristic.
pub proof fn law_hadamard_square<R: RingDescriptor>(x: Element<R>)
    ensures
        element_hadamard(x@, x@, ring_modulus::<R>()) == Seq::new(
            x@.len(),
            |i: int| balanced(x@[i] * x@[i], ring_modulus::<R>()),
        ),
{
    assert(element_hadamard(x@, x@, ring_modulus::<R>()) =~= Seq::new(
        x@.len(),
        |i: int| balanced(x@[i] * x@[i], ring_modulus::<R>()),
    ));
}

/// Modulo a positive `m`, the balanced residue of `x` is congruent to `x`,
/// lies above `m / 2 - m` and not above `m / 2`, and is the only such number.
pub proof fn law_canonical_residue(x: int, m: nat)
    requires
        m > 0,
    ensures
        congruent(balanced(x, m), x, m),
        lower_bound(m) < balanced(x, m) <= upper_bound(m),
        forall|r: int|
            lower_bound(m) < r <= upper_bound(m) && #[trigger] congruent(r, x, m) ==> r
                == balanced(x, m),
{
    lemma_balanced_is_canonical(x, m);
    assert forall|r: int|
        lower_bound(m) < r <= upper_bound(m) && #[trigger] congruent(r, x, m) implies r
        == balanced(x, m) by {
        lemma_balanced_unique(x, r, m);
    }
}

/// Under the zero characteristic sums, differences and products are the
/// exact integers, whatever their size.
pub proof fn law_zero_characteristic_exact<C: Characteristic>(
    a: ModularBigInt<C>,
    b: ModularBigInt<C>,
)
    requires
        C::modulus() == 0,
    ensures
        balanced(a@ + b@, C::modulus()) == a@ + b@,
        balanced(a@ - b@, C::modulus()) == a@ - b@,
        balanced(a@ * b@, C::modulus()) == a@ * b@,
{
}

/// The product of an element with the element one, on either side, is the
/// element itself.
pub proof fn law_multiplicative_identity<R: RingDescriptor>(x: Element<R>)
    requires
        x.wf(),
    ensures
        ring_product(x@, unit(ring_degree::<R>()), ring_degree::<R>(), ring_modulus::<R>()) == x@,
        ring_product(unit(ring_degree::<R>()), x@, ring_degree::<R>(), ring_modulus::<R>()) == x@,
{
    let n = ring_degree::<R>();
    let m = ring_modulus::<R>();
    let one = unit(n);
    let right = ring_product(x@, one, n, m);
    let left = ring_product(one, x@, n, m);
    assert forall|p: int| 0 <= p < n implies right[p] == x@[p] && left[p] == x@[p] by {
        lemma_fold_of_convolution(x@, one, p);
        lemma_fold_of_convolution(one, x@, p);
        lemma_negacyclic_unit_right(x@, p, n);
        lemma_negacyclic_unit_left(x@, p, n);
        lemma_balanced_of_canonical(x@[p], m);
    }
    assert(right =~= x@);
    assert(left =~= x@);
}

/// The element one is what the vector with the single entry 1 stands for,
/// and multiplying by it changes nothing.
pub proof fn law_multiplicative_identity_projected<R: RingDescriptor>(x: Element<R>)
    requires
        x.wf(),
    ensures
        ring_product(
            x@,
            project(seq![1int], ring_degree::<R>(), ring_modulus::<R>()),
            ring_degree::<R>(),
            ring_modulus::<R>(),
        ) == x@,
{
    let n = ring_degree::<R>();
    let m = ring_modulus::<R>();
    let one = unit(n);
    let projected = project(seq![1int], n, m);
    let product = ring_product(x@, projected, n, m);
    assert forall|j: int| 0 <= j < n implies congruent(#[trigger] projected[j], one[j], m) by {
        assert(fold_entry(seq![1int], n, j) == one[j]);
        lemma_balanced_is_canonical(one[j], m);
    }
    assert forall|p: int| 0 <= p < n implies product[p] == x@[p] by {
        lemma_fold_of_convolution(x@, projected, p);
        lemma_negacyclic_congruent(x@, projected, one, p, n, m);
        lemma_negacyclic_unit_right(x@, p, n);
        lemma_balanced_congruent(negacyclic_entry(x@, projected, p), x@[p], m);
        lemma_balanced_of_canonical(x@[p], m);
    }
    assert(product =~= x@);
}

/// The product in the ring distributes over the sum.
pub proof fn law_distributive<R: RingDescriptor>(a: Element<R>, b: Element<R>, c: Element<R>)
    requires
        a.wf(),
        b.wf(),
        c.wf(),
    ensures
        ring_product(
            a@,
            element_sum(b@, c@, ring_modulus::<R>()),
            ring_degree::<R>(),
            ring_modulus::<R>(),
        ) == element_sum(
            ring_product(a@, b@, ring_degree::<R>(), ring_modulus::<R>()),
            ring_product(a@, c@, ring_degree::<R>(), ring_modulus::<R>()),
            ring_modulus::<R>(),
        ),
{
    let n = ring_degree::<R>();
    let m = ring_modulus::<R>();
    let reduced = element_sum(b@, c@, m);
    let exact = Seq::new(n, |j: int| b@[j] + c@[j]);
    let left = ring_product(a@, reduced, n, m);
    let ab = ring_product(a@, b@, n, m);
    let ac = ring_product(a@, c@, n, m);
    let right = element_sum(ab, ac, m);
    assert forall|j: int| 0 <= j < n implies congruent(#[trigger] reduced[j], exact[j], m) by {
        lemma_balanced_is_canonical(b@[j] + c@[j], m);
    }
    assert forall|p: int| 0 <= p < n implies left[p] == right[p] by {
        let whole = negacyclic_entry(a@, reduced, p);
        let first = negacyclic_entry(a@, b@, p);
        let second = negacyclic_entry(a@, c@, p);
        lemma_fold_of_convolution(a@, reduced, p);
        lemma_fold_of_convolution(a@, b@, p);
        lemma_fold_of_convolution(a@, c@, p);
        lemma_negacyclic_congruent(a@, reduced, exact, p, n, m);
        lemma_negacyclic_additive(a@, b@, c@, exact, p, n);
        assert(congruent(whole, first + second, m));
        lemma_balanced_is_canonical(first, m);
        lemma_balanced_is_canonical(second, m);
        lemma_congruent_arithmetic(balanced(first, m), first, balanced(second, m), second, m);
        lemma_congruent_equivalence(balanced(first, m) + balanced(second, m), first + second, whole, m);
        lemma_congruent_equivalence(whole, first + second, balanced(first, m) + balanced(second, m), m);
        lemma_balanced_congruent(whole, balanced(first, m) + balanced(second, m), m);
    }
    assert(left =~= right);
}

/// Sums and products of coefficients do not depend on the order of the two
/// operands.
pub proof fn law_coefficient_commutative(a: int, b: int, m: nat)
    ensures
        balanced(a + b, m) == balanced(b + a, m),
        balanced(a * b, m) == balanced(b * a, m),
{
    assert(a * b == b * a) by (nonlinear_arith);
}

/// Sums and products of coefficients do not depend on how three operands are
/// grouped, although every intermediate result is reduced.
pub proof fn law_coefficient_associative(a: int, b: int, c: int, m: nat)
    ensures
        balanced(balanced(a + b, m) + c, m) == balanced(a + balanced(b + c, m), m),
        balanced(balanced(a * b, m) * c, m) == balanced(a * balanced(b * c, m), m),
{
    lemma_balanced_is_canonical(a + b, m);
    lemma_balanced_is_canonical(b + c, m);
    lemma_balanced_is_canonical(a * b, m);
    lemma_balanced_is_canonical(b * c, m);
    lemma_congruent_equivalence(a, a, a, m);
    lemma_congruent_equivalence(c, c, c, m);
    lemma_congruent_arithmetic(balanced(a + b, m), a + b, c, c, m);
    lemma_congruent_arithmetic(a, a, balanced(b + c, m), b + c, m);
    lemma_congruent_equivalence(a + balanced(b + c, m), a + b + c, a + b + c, m);
    lemma_congruent_equivalence(balanced(a + b, m) + c, a + b + c, a + balanced(b + c, m), m);
    lemma_balanced_congruent(balanced(a + b, m) + c, a + balanced(b + c, m), m);
    lemma_congruent_arithmetic(balanced(a * b, m), a * b, c, c, m);
    lemma_congruent_arithmetic(a, a, balanced(b * c, m), b * c, m);
    assert((a * b) * c == a * (b * c)) by (nonlinear_arith);
    lemma_congruent_equivalence(a * balanced(b * c, m), a * (b * c), a * (b * c), m);
    lemma_congruent_equivalence(
        balanced(a * b, m) * c,
        a * (b * c),
        a * balanced(b * c, m),
        m,
    );
    lemma_balanced_congruent(balanced(a * b, m) * c, a * balanced(b * c, m), m);
}

/// The sum of the ring and the coefficient-wise product do not depend on the
/// order of the two operands.
pub proof fn law_element_commutative<R: RingDescriptor>(a: Element<R>, b: Element<R>)
    requires
        a.wf(),
        b.wf(),
    ensures
        element_sum(a@, b@, ring_modulus::<R>()) == element_sum(b@, a@, ring_modulus::<R>()),
        element_hadamard(a@, b@, ring_modulus::<R>()) == element_hadamard(
            b@,
            a@,
            ring_modulus::<R>(),
        ),
{
    let m = ring_modulus::<R>();
    assert forall|i: int| 0 <= i < a@.len() implies balanced(a@[i] * b@[i], m) == balanced(
        b@[i] * a@[i],
        m,
    ) by {
        law_coefficient_commutative(a@[i], b@[i], m);
    }
    assert(element_sum(a@, b@, m) =~= element_sum(b@, a@, m));
    assert(element_hadamard(a@, b@, m) =~= element_hadamard(b@, a@, m));
}

/// The sum of the ring does not depend on how three operands are grouped.
pub proof fn law_sum_associative<R: RingDescriptor>(a: Element<R>, b: Element<R>, c: Element<R>)
    requires
        a.wf(),
        b.wf(),
        c.wf(),
    ensures
        element_sum(element_sum(a@, b@, ring_modulus::<R>()), c@, ring_modulus::<R>())
            == element_sum(a@, element_sum(b@, c@, ring_modulus::<R>()), ring_modulus::<R>()),
{
    let m = ring_modulus::<R>();
    let left = element_sum(element_sum(a@, b@, m), c@, m);
    let right = element_sum(a@, element_sum(b@, c@, m), m);
    assert forall|i: int| 0 <= i < a@.len() implies left[i] == right[i] by {
        law_coefficient_associative(a@[i], b@[i], c@[i], m);
    }
    assert(left =~= right);
}

/// The element with every coefficient zero changes nothing in a sum.
pub proof fn law_sum_identity<R: RingDescriptor>(x: Element<R>)
    requires
        x.wf(),
    ensures
        element_sum(x@, Seq::new(ring_degree::<R>(), |i: int| 0int), ring_modulus::<R>()) == x@,
{
    let m = ring_modulus::<R>();
    let zero = Seq::new(ring_degree::<R>(), |i: int| 0int);
    let sum = element_sum(x@, zero, m);
    assert forall|i: int| 0 <= i < x@.len() implies sum[i] == x@[i] by {
        lemma_balanced_of_canonical(x@[i], m);
    }
    assert(sum =~= x@);
}

} // verus!
