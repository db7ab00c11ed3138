//! The contracts that a coefficient domain and a ring meet, and the values
//! that are written against them.
use crate::degree::PowerOfTwo;
use crate::integer::int_eq;
use crate::integer::int_from_i64;
use crate::integer::int_value;
use crate::integer::int_values;
use crate::integer::nat_value;
use crate::integer::nat_zero;
use crate::polynomial::element_hadamard;
use crate::polynomial::element_sum;
use crate::polynomial::ring_product;
use crate::residue::balanced;
use crate::residue::is_canonical;
use crate::residue::lemma_balanced_is_canonical;
use core::ops::Add;
use core::ops::Mul;
use num_bigint::BigInt;
use num_bigint::BigUint;
use vstd::prelude::*;
use vstd::std_specs::cmp::PartialEqSpec;
use vstd::std_specs::cmp::PartialEqSpecImpl;
use vstd::std_specs::convert::FromSpecImpl;
use vstd::std_specs::ops::AddSpecImpl;

verus! {

/// The characteristic of a coefficient domain: zero for the integers, and a
/// prime `p` for the integers modulo `p`.
pub trait Characteristic: Clone {
    /// The characteristic as a number. An implementation that leaves this out
    /// has a characteristic that the verifier knows nothing about.
    open spec fn modulus() -> nat {
        arbitrary()
    }

    /// The characteristic at run time. Every call returns the same number.
    fn to_biguint() -> (m: BigUint)
        ensures
            nat_value(m) == Self::modulus(),
    ;
}

/// The zero characteristic. A ring over it has its coefficients in the
/// integers.
#[derive(Clone, Debug, PartialEq)]
pub struct CharZero {}

impl Characteristic for CharZero {
    open spec fn modulus() -> nat {
        0
    }

    fn to_biguint() -> (m: BigUint) {
        nat_zero()
    }
}

/// An element of a coefficient domain: a number kept as the balanced residue
/// of its class.
pub trait FieldElement: From<BigInt> + Clone + PartialEq + Add + Mul {
    type Char: Characteristic;

    /// The representative that the element holds.
    spec fn value(&self) -> int;

    /// A clone holds the same representative.
    proof fn lemma_clone(a: &Self, b: &Self)
        requires
            cloned(*a, *b),
        ensures
            a.value() == b.value(),
    ;

    /// Two elements are equal where they hold the same representative.
    proof fn lemma_equality(a: &Self, b: &Self)
        ensures
            <Self as PartialEqSpec>::obeys_eq_spec(),
            <Self as PartialEqSpec>::eq_spec(a, b) == (a.value() == b.value()),
    ;

    /// The sum in the domain.
    fn sum(&self, other: &Self) -> (r: Self)
        ensures
            r.value() == balanced(self.value() + other.value(), Self::Char::modulus()),
            is_canonical(r.value(), Self::Char::modulus()),
    ;

    /// The product in the domain.
    fn product(&self, other: &Self) -> (r: Self)
        ensures
            r.value() == balanced(self.value() * other.value(), Self::Char::modulus()),
            is_canonical(r.value(), Self::Char::modulus()),
    ;
}

/// What fixes a ring at compile time: its coefficient domain and its degree.
pub trait RingDescriptor: Sized {
    type Coefficient: FieldElement;

    type Degree: PowerOfTwo;
}

/// The characteristic of the coefficients of `R`.
pub open spec fn ring_modulus<R: RingDescriptor>() -> nat {
    <<R::Coefficient as FieldElement>::Char as Characteristic>::modulus()
}

/// The degree `n` of the ring `R`, whose elements are the polynomials modulo
/// `X^n + 1`.
pub open spec fn ring_degree<R: RingDescriptor>() -> nat {
    <R::Degree as PowerOfTwo>::value()
}

/// A polynomial ring over a coefficient domain, modulo `X^n + 1` for a power
/// of two `n`.
pub trait RlweRing: RingDescriptor {
    /// The product of two elements of the ring.
    fn mul(a: Element<Self>, b: Element<Self>) -> (r: Element<Self>)
        ensures
            r.wf(),
            r@ == ring_product(a@, b@, ring_degree::<Self>(), ring_modulus::<Self>()),
    ;

    /// The degree of the ring.
    fn degree() -> (n: usize)
        ensures
            n == ring_degree::<Self>(),
    {
        Self::Degree::to_usize()
    }

    /// The characteristic of the ring's coefficients.
    fn characteristic() -> (m: BigUint)
        ensures
            nat_value(m) == ring_modulus::<Self>(),
    {
        <Self::Coefficient as FieldElement>::Char::to_biguint()
    }
}

/// An element of the ring `R`: one coefficient for each power of `X` below
/// the degree.
#[derive(Debug)]
pub struct Element<R: RingDescriptor> {
    pub(crate) coefficients: Vec<R::Coefficient>,
}

impl<R: RingDescriptor> View for Element<R> {
    type V = Seq<int>;

    /// The representatives of the coefficients, entry `i` for `X^i`.
    open(crate) spec fn view(&self) -> Seq<int> {
        Seq::new(self.coefficients@.len(), |i: int| self.coefficients@[i].value())
    }
}

impl<R: RingDescriptor> Element<R> {
    /// An element has as many coefficients as the degree of its ring, and each
    /// is the canonical representative of its class. Every element that the
    /// library hands out is well formed.
    #[verifier::type_invariant]
    pub open spec fn wf(&self) -> bool {
        &&& self@.len() == ring_degree::<R>()
        &&& forall|i: int| 0 <= i < self@.len() ==> is_canonical(#[trigger] self@[i], ring_modulus::<R>())
    }

    /// The coefficients, entry `i` for `X^i`.
    pub fn coefficients(&self) -> (r: &Vec<R::Coefficient>)
        ensures
            r@.len() == self@.len(),
            forall|i: int| 0 <= i < r@.len() ==> (#[trigger] r@[i]).value() == self@[i],
    {
        &self.coefficients
    }

    /// The coefficient of `X^i`.
    pub fn at(&self, i: usize) -> (r: &R::Coefficient)
        requires
            i < ring_degree::<R>(),
        ensures
            r.value() == self@[i as int],
    {
        proof {
            use_type_invariant(self);
        }
        &self.coefficients[i]
    }

    /// The coefficient-wise product, which is not the product of the ring.
    pub fn hadamard(self, other: &Self) -> (r: Self)
        ensures
            r.wf(),
            r@ == element_hadamard(self@, other@, ring_modulus::<R>()),
    {
        proof {
            use_type_invariant(&self);
            use_type_invariant(other);
        }
        let n: usize = self.coefficients.len();
        let mut slice: Vec<R::Coefficient> = Vec::new();
        let mut i: usize = 0;
        while i < n
            invariant
                i <= n,
                n == self.coefficients@.len(),
                n == other.coefficients@.len(),
                slice@.len() == i,
                forall|j: int|
                    0 <= j < i ==> (#[trigger] slice@[j]).value() == balanced(
                        self.coefficients@[j].value() * other.coefficients@[j].value(),
                        ring_modulus::<R>(),
                    ),
            decreases n - i,
        {
            let c = self.coefficients[i].product(&other.coefficients[i]);
            slice.push(c);
            i += 1;
        }
        proof {
            assert forall|j: int| 0 <= j < n implies is_canonical(
                (#[trigger] slice@[j]).value(),
                ring_modulus::<R>(),
            ) by {
                lemma_balanced_is_canonical(
                    self.coefficients@[j].value() * other.coefficients@[j].value(),
                    ring_modulus::<R>(),
                );
            }
        }
        Element { coefficients: slice }
    }
}

impl<R: RingDescriptor> PartialEqSpecImpl for Element<R> {
    open spec fn obeys_eq_spec() -> bool {
        true
    }

    /// Two elements are equal where all their coefficients are.
    open spec fn eq_spec(&self, other: &Self) -> bool {
        self@ == other@
    }
}

impl<R: RingDescriptor> PartialEq for Element<R> {
    fn eq(&self, other: &Self) -> (r: bool) {
        proof {
            use_type_invariant(self);
            use_type_invariant(other);
        }
        let n: usize = self.coefficients.len();
        let mut i: usize = 0;
        while i < n
            invariant
                i <= n,
                n == self.coefficients@.len(),
                n == other.coefficients@.len(),
                forall|j: int| 0 <= j < i ==> self@[j] == other@[j],
            decreases n - i,
        {
            proof {
                R::Coefficient::lemma_equality(&self.coefficients@[i as int], &other.coefficients@[i as int]);
            }
            if !(self.coefficients[i] == other.coefficients[i]) {
                assert(self@[i as int] != other@[i as int]);
                return false;
            }
            i += 1;
        }
        assert(self@ =~= other@);
        true
    }
}

impl<R: RingDescriptor> Clone for Element<R> {
    fn clone(&self) -> (r: Self)
        ensures
            r.wf(),
            r@ == self@,
    {
        proof {
            use_type_invariant(self);
        }
        let coefficients: Vec<R::Coefficient> = self.coefficients.clone();
        proof {
            assert forall|i: int| 0 <= i < coefficients@.len() implies (
            #[trigger] coefficients@[i]).value() == self.coefficients@[i].value() by {
                R::Coefficient::lemma_clone(&self.coefficients@[i], &coefficients@[i]);
            }
            assert(Seq::new(coefficients@.len(), |i: int| coefficients@[i].value()) =~= self@);
        }
        Element { coefficients }
    }
}

/// What `+` returns is stated on `add` itself, over the views.
impl<R: RingDescriptor> AddSpecImpl<&Element<R>> for Element<R> {
    open spec fn obeys_add_spec() -> bool {
        false
    }

    open spec fn add_req(self, other: &Element<R>) -> bool {
        true
    }

    open spec fn add_spec(self, other: &Element<R>) -> Element<R> {
        arbitrary()
    }
}

impl<R: RingDescriptor> Add<&Element<R>> for Element<R> {
    type Output = Self;

    /// The sum in the ring: coefficient by coefficient.
    fn add(self, other: &Self) -> (r: Self)
        ensures
            r.wf(),
            r@ == element_sum(self@, other@, ring_modulus::<R>()),
    {
        proof {
            use_type_invariant(&self);
            use_type_invariant(other);
        }
        let n: usize = self.coefficients.len();
        let mut slice: Vec<R::Coefficient> = Vec::new();
        let mut i: usize = 0;
        while i < n
            invariant
                i <= n,
                n == self.coefficients@.len(),
                n == other.coefficients@.len(),
                slice@.len() == i,
                forall|j: int|
                    0 <= j < i ==> (#[trigger] slice@[j]).value() == balanced(
                        self.coefficients@[j].value() + other.coefficients@[j].value(),
                        ring_modulus::<R>(),
                    ),
            decreases n - i,
        {
            let c = self.coefficients[i].sum(&other.coefficients[i]);
            slice.push(c);
            i += 1;
        }
        proof {
            assert forall|j: int| 0 <= j < n implies is_canonical(
                (#[trigger] slice@[j]).value(),
                ring_modulus::<R>(),
            ) by {
                lemma_balanced_is_canonical(
                    self.coefficients@[j].value() + other.coefficients@[j].value(),
                    ring_modulus::<R>(),
                );
            }
        }
        Element { coefficients: slice }
    }
}

/// A sequence of integers of any length, from which an element of a ring is
/// made. Entry `i` stands for the coefficient of `X^i`, and nothing is asked
/// of the entries.
#[derive(Debug)]
pub struct Vector {
    pub(crate) coordinates: Vec<BigInt>,
}

impl View for Vector {
    type V = Seq<int>;

    /// The integers that the coordinates hold.
    open(crate) spec fn view(&self) -> Seq<int> {
        int_values(self.coordinates@)
    }
}

impl Vector {
    /// The coordinates, entry `i` for `X^i`.
    pub fn coordinates(&self) -> (r: &Vec<BigInt>)
        ensures
            int_values(r@) == self@,
    {
        &self.coordinates
    }
}

impl PartialEqSpecImpl for Vector {
    open spec fn obeys_eq_spec() -> bool {
        true
    }

    /// Two vectors are equal where they have the same integers in the same
    /// places.
    open spec fn eq_spec(&self, other: &Self) -> bool {
        self@ == other@
    }
}

impl PartialEq for Vector {
    fn eq(&self, other: &Self) -> (r: bool) {
        let n: usize = self.coordinates.len();
        if n != other.coordinates.len() {
            assert(self@.len() != other@.len());
            return false;
        }
        let mut i: usize = 0;
        while i < n
            invariant
                i <= n,
                n == self.coordinates@.len(),
                n == other.coordinates@.len(),
                forall|j: int| 0 <= j < i ==> self@[j] == other@[j],
            decreases n - i,
        {
            if !int_eq(&self.coordinates[i], &other.coordinates[i]) {
                assert(self@[i as int] != other@[i as int]);
                return false;
            }
            i += 1;
        }
        assert(self@ =~= other@);
        true
    }
}

impl Clone for Vector {
    fn clone(&self) -> (r: Self)
        ensures
            r@ == self@,
    {
        let coordinates = self.coordinates.clone();
        assert(int_values(coordinates@) =~= int_values(self.coordinates@));
        Vector { coordinates }
    }
}

/// What the conversion returns is stated on `from` itself, over the views.
impl FromSpecImpl<Vec<i64>> for Vector {
    open spec fn obeys_from_spec() -> bool {
        false
    }

    open spec fn from_spec(x: Vec<i64>) -> Self {
        arbitrary()
    }
}

impl From<Vec<i64>> for Vector {
    /// The vector with the given machine integers as its coordinates.
    fn from(x: Vec<i64>) -> (r: Self)
        ensures
            r@ == Seq::new(x@.len(), |i: int| x@[i] as int),
    {
        let mut coordinates: Vec<BigInt> = Vec::new();
        let mut i: usize = 0;
        while i < x.len()
            invariant
                i <= x@.len(),
                coordinates@.len() == i,
                forall|j: int| 0 <= j < i ==> int_value(#[trigger] coordinates@[j]) == x@[j],
            decreases x@.len() - i,
        {
            coordinates.push(int_from_i64(x[i]));
            i += 1;
        }
        assert(int_values(coordinates@) =~= Seq::new(x@.len(), |i: int| x@[i] as int));
        Vector { coordinates }
    }
}

/// What the conversion returns is stated on `from` itself, over the views.
impl FromSpecImpl<Vec<BigInt>> for Vector {
    open spec fn obeys_from_spec() -> bool {
        false
    }

    open spec fn from_spec(coordinates: Vec<BigInt>) -> Self {
        arbitrary()
    }
}

impl From<Vec<BigInt>> for Vector {
    /// The vector with the given integers as its coordinates.
    fn from(coordinates: Vec<BigInt>) -> (r: Self)
        ensures
            r@ == int_values(coordinates@),
    {
        Vector { coordinates }
    }
}

} // verus!
