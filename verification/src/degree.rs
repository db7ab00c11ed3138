//! Ring degrees fixed at compile time.
//!
//! A degree is a type-level number of `typenum`. The trait of this module is
//! implemented for exactly the unsigned type-level numbers that are powers of
//! two, so that a ring of any other degree cannot be written down.
use typenum::UInt;
use typenum::UTerm;
use typenum::B0;
use typenum::B1;
use vstd::prelude::*;

verus! {

/// `typenum::UTerm`, the end of a type-level number.
#[verifier::external_type_specification]
#[verifier::external_body]
pub struct ExUTerm(UTerm);

/// `typenum::B0`, the type-level bit zero.
#[verifier::external_type_specification]
#[verifier::external_body]
pub struct ExB0(B0);

/// `typenum::B1`, the type-level bit one.
#[verifier::external_type_specification]
#[verifier::external_body]
pub struct ExB1(B1);

/// `typenum::UInt`, a type-level number: the bits `U` followed by the bit
/// `B`.
#[verifier::external_type_specification]
#[verifier::external_body]
#[verifier::reject_recursive_types(U)]
#[verifier::reject_recursive_types(B)]
pub struct ExUInt<U, B>(UInt<U, B>);

/// Whether `n` is one of 1, 2, 4, 8, ...
pub open spec fn is_power_of_two(n: nat) -> bool
    decreases n,
{
    n == 1 || (n > 1 && n % 2 == 0 && is_power_of_two(n / 2))
}

/// A type that stands for a power of two, which is the degree of a ring.
pub trait PowerOfTwo {
    /// The degree that the type gives: the number that it stands for, as far
    /// as the machine can index with it.
    spec fn value() -> nat;

    /// The degree is a power of two and fits in a `usize`.
    proof fn lemma_value()
        ensures
            is_power_of_two(Self::value()),
            Self::value() <= usize::MAX,
    ;

    /// The degree, at run time.
    fn to_usize() -> (n: usize)
        ensures
            n == Self::value(),
    ;
}

/// The type-level number one: a single set bit.
impl PowerOfTwo for UInt<UTerm, B1> {
    open spec fn value() -> nat {
        1
    }

    proof fn lemma_value() {
    }

    fn to_usize() -> (n: usize) {
        1
    }
}

/// A power of two followed by a zero bit: twice that power. Where the double
/// would leave the range of `usize`, no vector of that length exists, and the
/// degree stays at the largest power of two that fits.
impl<U: PowerOfTwo> PowerOfTwo for UInt<U, B0> {
    open spec fn value() -> nat {
        if 2 * U::value() <= usize::MAX {
            2 * U::value()
        } else {
            U::value()
        }
    }

    proof fn lemma_value() {
        U::lemma_value();
    }

    fn to_usize() -> (n: usize) {
        let half: usize = U::to_usize();
        match half.checked_mul(2) {
            Some(double) => double,
            None => half,
        }
    }
}

} // verus!
