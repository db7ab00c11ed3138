use num_bigint::BigInt;
use num_bigint::BigUint;
use num_traits::FromPrimitive;
use num_traits::One;
use num_traits::Zero;
use rlwe::cyclotomic::ModularBigInt;
use rlwe::traits::CharZero;
use rlwe::traits::Characteristic;
use rlwe::traits::FieldElement;

#[derive(Clone, Debug, PartialEq)]
struct Char1 {}

impl Characteristic for Char1 {
    fn to_biguint() -> BigUint {
        BigUint::from_u8(1).unwrap()
    }
}

#[derive(Clone, Debug, PartialEq)]
struct Char2 {}

impl Characteristic for Char2 {
    fn to_biguint() -> BigUint {
        BigUint::from_u8(2).unwrap()
    }
}

#[derive(Clone, Debug, PartialEq)]
struct Char6 {}

impl Characteristic for Char6 {
    fn to_biguint() -> BigUint {
        BigUint::from_u8(6).unwrap()
    }
}

#[derive(Clone, Debug, PartialEq)]
struct Char7 {}

impl Characteristic for Char7 {
    fn to_biguint() -> BigUint {
        BigUint::from_u8(7).unwrap()
    }
}

fn reduced<C: Characteristic>(x: i64) -> BigInt {
    let value: ModularBigInt<C> = BigInt::from(x).into();
    value.representant().clone()
}

fn big(x: i64) -> BigInt {
    BigInt::from(x)
}

#[test]
fn zero_characteristic_keeps_the_integer() {
    for x in [-1_000_000_007_i64, -4, -1, 0, 1, 3, 4, 7, i64::MAX, i64::MIN] {
        assert_eq!(reduced::<CharZero>(x), big(x));
    }
}

#[test]
fn modulus_one_has_only_zero() {
    for x in -5..=5 {
        assert_eq!(reduced::<Char1>(x), big(0));
    }
}

#[test]
fn modulus_two_has_zero_and_one() {
    let pairs = [(-3, 1), (-2, 0), (-1, 1), (0, 0), (1, 1), (2, 0), (3, 1)];
    for (x, want) in pairs {
        assert_eq!(reduced::<Char2>(x), big(want));
    }
}

#[test]
fn even_modulus_breaks_the_tie_upward() {
    let pairs = [
        (-9, 3),
        (-4, 2),
        (-3, 3),
        (-2, -2),
        (-1, -1),
        (0, 0),
        (2, 2),
        (3, 3),
        (4, -2),
        (5, -1),
        (6, 0),
        (9, 3),
    ];
    for (x, want) in pairs {
        assert_eq!(reduced::<Char6>(x), big(want));
    }
}

#[test]
fn odd_modulus_is_symmetric() {
    let pairs = [
        (-11, 3),
        (-7, 0),
        (-4, 3),
        (-3, -3),
        (-1, -1),
        (0, 0),
        (2, 2),
        (3, 3),
        (4, -3),
        (6, -1),
        (7, 0),
        (10, 3),
        (11, -3),
        (100, 2),
    ];
    for (x, want) in pairs {
        assert_eq!(reduced::<Char7>(x), big(want));
    }
}

#[test]
fn residue_lies_in_the_balanced_interval() {
    for x in -50_i64..=50 {
        let r = reduced::<Char7>(x);
        assert!(r > big(3 - 7) && r <= big(3));
        assert!(((r.clone() - big(x)) % big(7)).is_zero());
        let s = reduced::<Char6>(x);
        assert!(s > big(3 - 6) && s <= big(3));
        assert!(((s - big(x)) % big(6)).is_zero());
    }
}

#[test]
fn remainder_by_a_given_modulus() {
    let x: ModularBigInt<CharZero> = big(11).into();
    let by_seven = x.clone() % BigUint::from_u8(7).unwrap();
    assert_eq!(by_seven.representant(), &big(-3));
    let by_zero = x.clone() % BigUint::zero();
    assert_eq!(by_zero.representant(), &big(11));
    let by_one = x % BigUint::one();
    assert_eq!(by_one.representant(), &big(0));
}

#[test]
fn sum_difference_and_product_are_reduced() {
    let a: ModularBigInt<Char7> = big(3).into();
    let b: ModularBigInt<Char7> = big(2).into();
    assert_eq!((a.clone() + b.clone()).representant(), &big(-2));
    assert_eq!((a.clone() * b.clone()).representant(), &big(-1));
    assert_eq!(a.sum(&b).representant(), &big(-2));
    assert_eq!(a.product(&b).representant(), &big(-1));
    let mut c = a.clone();
    c += b.clone();
    assert_eq!(c.representant(), &big(-2));
    let mut d = b.clone();
    d -= a.clone();
    assert_eq!(d.representant(), &big(-1));
    let mut e: ModularBigInt<Char7> = big(-3).into();
    e -= a;
    assert_eq!(e.representant(), &big(1));
}

#[test]
fn zero_characteristic_is_exact_for_large_numbers() {
    let large: BigInt = BigInt::one() << 200;
    let below: BigInt = large.clone() - BigInt::one();
    let double: BigInt = large.clone() + large.clone();
    let a: ModularBigInt<CharZero> = large.clone().into();
    let b: ModularBigInt<CharZero> = below.clone().into();
    assert_eq!((a.clone() + b.clone()).representant(), &(double.clone() - BigInt::one()));
    assert_eq!((a.clone() * b.clone()).representant(), &(large.clone() * below));
    let mut c = b.clone();
    c -= a.clone();
    assert_eq!(c.representant(), &big(-1));
    let mut d = a.clone();
    d += a;
    assert_eq!(d.representant(), &double);
}

#[test]
fn zero_is_zero() {
    let zero = ModularBigInt::<Char7>::zero();
    assert!(zero.is_zero());
    assert_eq!(zero.representant(), &big(0));
    let seven: ModularBigInt<Char7> = big(7).into();
    assert!(seven.is_zero());
    assert_eq!(seven, zero);
    let one: ModularBigInt<Char7> = big(1).into();
    assert!(!one.is_zero());
    assert_eq!(one.clone() + zero, one);
}

#[test]
fn clone_keeps_the_value() {
    let a: ModularBigInt<Char7> = big(10).into();
    let b = a.clone();
    assert_eq!(a, b);
    assert_eq!(b.representant(), &big(3));
}

#[test]
fn characteristic_of_the_integers_is_zero() {
    assert!(CharZero::to_biguint().is_zero());
    assert_eq!(Char7::to_biguint(), BigUint::from_u8(7).unwrap());
}

#[test]
fn equality_compares_the_representatives() {
    let a: ModularBigInt<Char7> = big(3).into();
    let same: ModularBigInt<Char7> = big(-4).into();
    let other: ModularBigInt<Char7> = big(4).into();
    assert_eq!(a, same);
    assert_ne!(a, other);
    assert!(a != other);
}

#[test]
fn operations_associate_in_the_residues() {
    for a in -7_i64..=7 {
        for b in -7_i64..=7 {
            for c in [-3_i64, 0, 2, 5] {
                let x: ModularBigInt<Char6> = big(a).into();
                let y: ModularBigInt<Char6> = big(b).into();
                let z: ModularBigInt<Char6> = big(c).into();
                assert_eq!(
                    (x.clone() + y.clone()) + z.clone(),
                    x.clone() + (y.clone() + z.clone())
                );
                assert_eq!(
                    (x.clone() * y.clone()) * z.clone(),
                    x.clone() * (y.clone() * z.clone())
                );
                assert_eq!(x.clone() + y.clone(), y.clone() + x.clone());
                assert_eq!(x.clone() * y.clone(), y * x);
            }
        }
    }
}
