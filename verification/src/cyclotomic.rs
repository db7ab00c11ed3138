//! Balanced modular integers, and the ring of polynomials over them modulo
//! `X^n + 1`.
use crate::degree::PowerOfTwo;
use crate::integer::int_difference;
use crate::integer::int_eq;
use crate::integer::int_from_nat;
use crate::integer::int_is_zero;
use crate::integer::int_le;
use crate::integer::int_product;
use crate::integer::int_quotient_u32;
use crate::integer::int_remainder;
use crate::integer::int_sum;
use crate::integer::int_value;
use crate::integer::int_values;
use crate::integer::int_zero;
use crate::integer::nat_is_zero;
use crate::integer::nat_value;
use crate::polynomial::convolution;
use crate::polynomial::entry;
use crate::polynomial::fold;
use crate::polynomial::lemma_fold_of_convolution;
use crate::polynomial::lemma_partial_fold_is_fold;
use crate::polynomial::negacyclic_partial;
use crate::polynomial::negacyclic_row;
use crate::polynomial::partial_fold;
use crate::polynomial::project;
use crate::polynomial::ring_product;
use crate::residue::balanced;
use crate::residue::congruent;
use crate::residue::is_canonical;
use crate::residue::lemma_balanced_is_canonical;
use crate::residue::lemma_balanced_stays_canonical;
use crate::residue::lemma_shift_into_interval;
use crate::residue::lemma_truncated_remainder;
use crate::traits::Characteristic;
use crate::traits::Element;
use crate::traits::FieldElement;
use crate::traits::RingDescriptor;
use crate::traits::RlweRing;
use crate::traits::Vector;
use core::marker::PhantomData;
use core::ops::Add;
use core::ops::AddAssign;
use core::ops::Mul;
use core::ops::Rem;
use core::ops::SubAssign;
use num_bigint::BigInt;
use num_bigint::BigUint;
use num_traits::Zero;
use vstd::prelude::*;
use vstd::std_specs::cmp::PartialEqSpecImpl;
use vstd::std_specs::convert::FromSpecImpl;
use vstd::std_specs::ops::AddSpecImpl;
use vstd::std_specs::ops::MulSpecImpl;
use vstd::std_specs::ops::RemSpecImpl;

verus! {

/// An integer modulo the characteristic `C`, kept as the balanced residue of
/// its class. Under the zero characteristic it is an integer of any size.
#[derive(Debug)]
pub struct ModularBigInt<C: Characteristic> {
    representant: BigInt,
    modulus: PhantomData<C>,
}

impl<C: Characteristic> View for ModularBigInt<C> {
    type V = int;

    /// The representative that the value holds.
    closed spec fn view(&self) -> int {
        int_value(self.representant)
    }
}

impl<C: Characteristic> ModularBigInt<C> {
    /// The value holds the canonical representative of its class. Every value
    /// that the library hands out is well formed.
    #[verifier::type_invariant]
    pub open spec fn wf(&self) -> bool {
        is_canonical(self@, C::modulus())
    }

    /// The representative that the value holds.
    pub fn representant(&self) -> (r: &BigInt)
        ensures
            int_value(*r) == self@,
            is_canonical(self@, C::modulus()),
    {
        proof {
            use_type_invariant(self);
        }
        &self.representant
    }
}

/// The balanced residue of `x` modulo `modulus`. A modulus of zero leaves `x`
/// as it is. For a positive modulus `m` the remainder of `x` lies strictly
/// between `-m` and `m`, and one step by `m` brings it into the balanced
/// interval where it lies outside.
fn reduce(x: BigInt, modulus: BigUint) -> (r: BigInt)
    ensures
        int_value(r) == balanced(int_value(x), nat_value(modulus)),
{
    if nat_is_zero(&modulus) {
        return x;
    }
    let ghost d = nat_value(modulus);
    let m: BigInt = int_from_nat(modulus);
    let right = int_quotient_u32(m.clone(), 2);
    let left = int_difference(&right, &m);
    let rep = int_remainder(&x, &m);
    proof {
        lemma_truncated_remainder(int_value(x), d);
        lemma_shift_into_interval(int_value(x), int_value(rep), d);
    }
    if int_le(&rep, &left) {
        int_sum(&rep, &m)
    } else if !int_le(&rep, &right) {
        int_difference(&rep, &m)
    } else {
        rep
    }
}

impl<C: Characteristic> Zero for ModularBigInt<C> {
    /// The zero of the domain.
    fn zero() -> (r: Self)
        ensures
            r@ == 0,
    {
        ModularBigInt { representant: int_zero(), modulus: PhantomData }
    }

    /// Whether the value is the zero of the domain.
    fn is_zero(&self) -> (r: bool)
        ensures
            r == (self@ == 0),
    {
        int_is_zero(&self.representant)
    }
}

impl<C: Characteristic> PartialEqSpecImpl for ModularBigInt<C> {
    open spec fn obeys_eq_spec() -> bool {
        true
    }

    /// Two values are equal where they hold the same representative.
    open spec fn eq_spec(&self, other: &Self) -> bool {
        self@ == other@
    }
}

impl<C: Characteristic> PartialEq for ModularBigInt<C> {
    fn eq(&self, other: &Self) -> (r: bool) {
        int_eq(&self.representant, &other.representant)
    }
}

impl<C: Characteristic> Clone for ModularBigInt<C> {
    fn clone(&self) -> (r: Self)
        ensures
            r@ == self@,
    {
        proof {
            use_type_invariant(self);
        }
        ModularBigInt { representant: self.representant.clone(), modulus: PhantomData }
    }
}

/// What `%` returns is stated on `rem` itself, over the views. It cannot be
/// stated as a value of this type: a specification cannot write down a
/// `BigInt`.
impl<C: Characteristic> RemSpecImpl<BigUint> for ModularBigInt<C> {
    open spec fn obeys_rem_spec() -> bool {
        false
    }

    open spec fn rem_req(self, modulus: BigUint) -> bool {
        true
    }

    open spec fn rem_spec(self, modulus: BigUint) -> Self {
        arbitrary()
    }
}

impl<C: Characteristic> Rem<BigUint> for ModularBigInt<C> {
    type Output = Self;

    /// The balanced residue modulo `modulus`. A modulus of zero leaves the
    /// value as it is.
    fn rem(self, modulus: BigUint) -> (r: Self)
        ensures
            r@ == balanced(self@, nat_value(modulus)),
            is_canonical(r@, nat_value(modulus)),
            congruent(r@, self@, nat_value(modulus)),
    {
        proof {
            use_type_invariant(&self);
            lemma_balanced_is_canonical(self@, nat_value(modulus));
            lemma_balanced_stays_canonical(self@, nat_value(modulus), C::modulus());
        }
        ModularBigInt { representant: reduce(self.representant, modulus), modulus: PhantomData }
    }
}

/// What the conversion returns is stated on `from` itself, over the views.
impl<C: Characteristic> FromSpecImpl<BigInt> for ModularBigInt<C> {
    open spec fn obeys_from_spec() -> bool {
        false
    }

    open spec fn from_spec(x: BigInt) -> Self {
        arbitrary()
    }
}

impl<C: Characteristic> From<BigInt> for ModularBigInt<C> {
    /// The element of the domain that the integer `x` stands for.
    fn from(x: BigInt) -> (r: Self)
        ensures
            r@ == balanced(int_value(x), C::modulus()),
            is_canonical(r@, C::modulus()),
            congruent(r@, int_value(x), C::modulus()),
    {
        let ch: BigUint = C::to_biguint();
        proof {
            lemma_balanced_is_canonical(int_value(x), C::modulus());
        }
        ModularBigInt { representant: reduce(x, ch), modulus: PhantomData }
    }
}

/// What `+` returns is stated on `add` itself, over the views.
impl<C: Characteristic> AddSpecImpl for ModularBigInt<C> {
    open spec fn obeys_add_spec() -> bool {
        false
    }

    open spec fn add_req(self, other: Self) -> bool {
        true
    }

    open spec fn add_spec(self, other: Self) -> Self {
        arbitrary()
    }
}

impl<C: Characteristic> Add for ModularBigInt<C> {
    type Output = Self;

    /// The sum in the domain.
    fn add(self, other: Self) -> (r: Self)
        ensures
            r@ == balanced(self@ + other@, C::modulus()),
            is_canonical(r@, C::modulus()),
            C::modulus() == 0 ==> r@ == self@ + other@,
    {
        let val = int_sum(&self.representant, &other.representant);
        ModularBigInt::from(val)
    }
}

impl<C: Characteristic> AddAssign for ModularBigInt<C> {
    /// Replaces the value by its sum with `other` in the domain.
    fn add_assign(&mut self, other: Self)
        ensures
            final(self)@ == balanced(old(self)@ + other@, C::modulus()),
            is_canonical(final(self)@, C::modulus()),
            C::modulus() == 0 ==> final(self)@ == old(self)@ + other@,
    {
        let val = int_sum(&self.representant, &other.representant);
        *self = ModularBigInt::from(val);
    }
}

impl<C: Characteristic> SubAssign for ModularBigInt<C> {
    /// Replaces the value by its difference with `other` in the domain.
    fn sub_assign(&mut self, other: Self)
        ensures
            final(self)@ == balanced(old(self)@ - other@, C::modulus()),
            is_canonical(final(self)@, C::modulus()),
            C::modulus() == 0 ==> final(self)@ == old(self)@ - other@,
    {
        let val = int_difference(&self.representant, &other.representant);
        *self = ModularBigInt::from(val);
    }
}

/// What `*` returns is stated on `mul` itself, over the views.
impl<C: Characteristic> MulSpecImpl for ModularBigInt<C> {
    open spec fn obeys_mul_spec() -> bool {
        false
    }

    open spec fn mul_req(self, other: Self) -> bool {
        true
    }

    open spec fn mul_spec(self, other: Self) -> Self {
        arbitrary()
    }
}

impl<C: Characteristic> Mul for ModularBigInt<C> {
    type Output = Self;

    /// The product in the domain.
    fn mul(self, other: Self) -> (r: Self)
        ensures
            r@ == balanced(self@ * other@, C::modulus()),
            is_canonical(r@, C::modulus()),
            C::modulus() == 0 ==> r@ == self@ * other@,
    {
        let val = int_product(&self.representant, &other.representant);
        ModularBigInt::from(val)
    }
}

impl<C: Characteristic> FieldElement for ModularBigInt<C> {
    type Char = C;

    open spec fn value(&self) -> int {
        self@
    }

    proof fn lemma_clone(a: &Self, b: &Self) {
    }

    proof fn lemma_equality(a: &Self, b: &Self) {
    }

    fn sum(&self, other: &Self) -> (r: Self) {
        self.clone() + other.clone()
    }

    fn product(&self, other: &Self) -> (r: Self) {
        self.clone() * other.clone()
    }
}

/// The ring of polynomials modulo `X^n + 1` with coefficients of
/// characteristic `C`, where the power of two `n` is the number that `T`
/// stands for.
#[derive(Debug, PartialEq)]
pub struct Cyclotomic<T: PowerOfTwo, C: Characteristic> {
    degree: PhantomData<T>,
    characteristic: PhantomData<C>,
}

impl<T: PowerOfTwo, C: Characteristic> Clone for Cyclotomic<T, C> {
    fn clone(&self) -> (r: Self)
        ensures
            r == *self,
    {
        Cyclotomic { degree: PhantomData, characteristic: PhantomData }
    }
}

impl<T: PowerOfTwo, C: Characteristic> RingDescriptor for Cyclotomic<T, C> {
    type Coefficient = ModularBigInt<C>;

    type Degree = T;
}

/// Each integer as an element of the domain of characteristic `C`.
fn reduce_each<C: Characteristic>(slice: &Vec<BigInt>) -> (r: Vec<ModularBigInt<C>>)
    ensures
        r@.len() == slice@.len(),
        forall|i: int|
            0 <= i < r@.len() ==> (#[trigger] r@[i])@ == balanced(
                int_value(slice@[i]),
                C::modulus(),
            ),
{
    let mut coefficients: Vec<ModularBigInt<C>> = Vec::new();
    let mut i: usize = 0;
    while i < slice.len()
        invariant
            i <= slice@.len(),
            coefficients@.len() == i,
            forall|j: int|
                0 <= j < i ==> (#[trigger] coefficients@[j])@ == balanced(
                    int_value(slice@[j]),
                    C::modulus(),
                ),
        decreases slice@.len() - i,
    {
        coefficients.push(ModularBigInt::from(slice[i].clone()));
        i += 1;
    }
    coefficients
}

/// What the conversion returns is stated on `from` itself, over the views.
impl<T: PowerOfTwo, C: Characteristic> FromSpecImpl<Vector> for Element<Cyclotomic<T, C>> {
    open spec fn obeys_from_spec() -> bool {
        false
    }

    open spec fn from_spec(p: Vector) -> Self {
        arbitrary()
    }
}

impl<T: PowerOfTwo, C: Characteristic> From<Vector> for Element<Cyclotomic<T, C>> {
    /// The element of the ring that the polynomial `p` stands for: `p` taken
    /// modulo `X^n + 1`, with every coefficient reduced. A vector shorter than
    /// the degree is filled up with zeros. A longer one is cut into blocks of
    /// `n` entries, which are added up with alternating signs.
    fn from(p: Vector) -> (r: Self)
        ensures
            r.wf(),
            r@ == project(p@, T::value(), C::modulus()),
    {
        let degree: usize = T::to_usize();
        let len: usize = p.coordinates.len();
        let ghost n = T::value();
        let ghost v = p@;
        proof {
            T::lemma_value();
        }
        let mut slice: Vec<BigInt> = Vec::new();
        if len <= degree {
            let mut i: usize = 0;
            while i < degree
                invariant
                    i <= degree,
                    len == p.coordinates@.len(),
                    v == int_values(p.coordinates@),
                    slice@.len() == i,
                    forall|j: int| 0 <= j < i ==> int_value(#[trigger] slice@[j]) == entry(v, j),
                decreases degree - i,
            {
                if i < len {
                    slice.push(p.coordinates[i].clone());
                } else {
                    slice.push(int_zero());
                }
                i += 1;
            }
        } else {
            while slice.len() < degree
                invariant
                    slice@.len() <= degree,
                    forall|j: int| 0 <= j < slice@.len() ==> int_value(#[trigger] slice@[j]) == 0,
                decreases degree - slice@.len(),
            {
                slice.push(int_zero());
            }
            let mut i: usize = 0;
            while i < len
                invariant
                    i <= len,
                    degree == n,
                    degree > 0,
                    len == p.coordinates@.len(),
                    v == int_values(p.coordinates@),
                    slice@.len() == degree,
                    forall|q: int|
                        0 <= q < degree ==> int_value(#[trigger] slice@[q]) == partial_fold(
                            v,
                            n,
                            q,
                            i as nat,
                        ),
                decreases len - i,
            {
                let position: usize = i % degree;
                let updated = if i / degree % 2 == 0 {
                    int_sum(&slice[position], &p.coordinates[i])
                } else {
                    int_difference(&slice[position], &p.coordinates[i])
                };
                slice.set(position, updated);
                i += 1;
            }
            proof {
                assert forall|q: int| 0 <= q < degree implies int_value(#[trigger] slice@[q])
                    == entry(fold(v, n), q) by {
                    lemma_partial_fold_is_fold(v, n, q);
                }
            }
        }
        proof {
            assert(int_values(slice@) =~= fold(v, n));
        }
        let coefficients = reduce_each::<C>(&slice);
        proof {
            let view = Seq::new(coefficients@.len(), |i: int| coefficients@[i].value());
            assert(view =~= project(v, n, C::modulus()));
            assert forall|i: int| 0 <= i < view.len() implies is_canonical(
                #[trigger] view[i],
                C::modulus(),
            ) by {
                lemma_balanced_is_canonical(fold(v, n)[i], C::modulus());
            }
        }
        Element { coefficients }
    }
}

impl<T: PowerOfTwo, C: Characteristic> RlweRing for Cyclotomic<T, C> {
    /// The product in the ring. Every pair of coefficients is multiplied once,
    /// and the product goes to the coefficient where `X^(i + j)` lands modulo
    /// `X^n + 1`: with its own sign below `X^n`, with the opposite sign from
    /// `X^n` on. The sums are reduced once, at the end.
    fn mul(a: Element<Self>, b: Element<Self>) -> (r: Element<Self>) {
        proof {
            use_type_invariant(&a);
            use_type_invariant(&b);
        }
        let n: usize = a.coefficients.len();
        let ghost av = a@;
        let ghost bv = b@;
        let mut slice: Vec<BigInt> = Vec::new();
        while slice.len() < n
            invariant
                slice@.len() <= n,
                forall|p: int| 0 <= p < slice@.len() ==> int_value(#[trigger] slice@[p]) == 0,
            decreases n - slice@.len(),
        {
            slice.push(int_zero());
        }
        let mut i: usize = 0;
        while i < n
            invariant
                i <= n,
                n == a.coefficients@.len(),
                n == b.coefficients@.len(),
                av == a@,
                bv == b@,
                slice@.len() == n,
                forall|p: int|
                    0 <= p < n ==> int_value(#[trigger] slice@[p]) == negacyclic_partial(
                        av,
                        bv,
                        p,
                        i as nat,
                    ),
            decreases n - i,
        {
            let mut j: usize = 0;
            while j < n
                invariant
                    i < n,
                    j <= n,
                    n == a.coefficients@.len(),
                    n == b.coefficients@.len(),
                    av == a@,
                    bv == b@,
                    slice@.len() == n,
                    forall|p: int|
                        0 <= p < n ==> int_value(#[trigger] slice@[p]) == negacyclic_partial(
                            av,
                            bv,
                            p,
                            i as nat,
                        ) + negacyclic_row(av, bv, p, i as int, j as nat),
                decreases n - j,
            {
                let product = int_product(
                    &a.coefficients[i].representant,
                    &b.coefficients[j].representant,
                );
                let ghost before = slice@;
                if j < n - i {
                    let position: usize = i + j;
                    let updated = int_sum(&slice[position], &product);
                    slice.set(position, updated);
                } else {
                    let position: usize = j - (n - i);
                    let updated = int_difference(&slice[position], &product);
                    slice.set(position, updated);
                    proof {
                        assert(av[i as int] * (-bv[j as int]) == -(av[i as int] * bv[j as int]))
                            by (nonlinear_arith);
                    }
                }
                proof {
                    assert forall|p: int| 0 <= p < n implies int_value(#[trigger] slice@[p])
                        == negacyclic_partial(av, bv, p, i as nat) + negacyclic_row(
                        av,
                        bv,
                        p,
                        i as int,
                        (j + 1) as nat,
                    ) by {
                        assert(int_value(before[p]) == negacyclic_partial(av, bv, p, i as nat)
                            + negacyclic_row(av, bv, p, i as int, j as nat));
                    }
                }
                j += 1;
            }
            i += 1;
        }
        proof {
            assert forall|p: int| 0 <= p < n implies int_value(#[trigger] slice@[p]) == fold(
                convolution(av, bv),
                n as nat,
            )[p] by {
                lemma_fold_of_convolution(av, bv, p);
            }
            assert(int_values(slice@) =~= fold(convolution(av, bv), n as nat));
        }
        let coefficients = reduce_each::<C>(&slice);
        proof {
            let folded = fold(convolution(av, bv), n as nat);
            let view = Seq::new(coefficients@.len(), |i: int| coefficients@[i].value());
            assert(view =~= ring_product(av, bv, n as nat, C::modulus()));
            assert forall|i: int| 0 <= i < view.len() implies is_canonical(
                #[trigger] view[i],
                C::modulus(),
            ) by {
                lemma_balanced_is_canonical(folded[i], C::modulus());
            }
        }
        Element { coefficients }
    }
}

} // verus!
