use num_bigint::BigInt;
use num_bigint::BigUint;
use num_traits::FromPrimitive;
use num_traits::Zero;
use rand::Rng;
use rlwe::cyclotomic::Cyclotomic;
use rlwe::degree::PowerOfTwo;
use rlwe::traits::CharZero;
use rlwe::traits::Characteristic;
use rlwe::traits::Element;
use rlwe::traits::RlweRing;
use rlwe::traits::Vector;
use typenum::consts::U1;
use typenum::consts::U1024;
use typenum::consts::U2;
use typenum::consts::U4;
use typenum::consts::U8;

#[derive(Clone, Debug, PartialEq)]
struct Prime7 {}

impl Characteristic for Prime7 {
    fn to_biguint() -> BigUint {
        BigUint::from_u8(7).unwrap()
    }
}

#[derive(Clone, Debug, PartialEq)]
struct Prime17 {}

impl Characteristic for Prime17 {
    fn to_biguint() -> BigUint {
        BigUint::from_u8(17).unwrap()
    }
}

fn element<R>(entries: Vec<i64>) -> Element<R>
where
    Element<R>: From<Vector>,
    R: RlweRing,
{
    let v: Vector = entries.into();
    v.into()
}

fn balanced(x: i64, m: i64) -> i64 {
    if m == 0 {
        return x;
    }
    let t = x.rem_euclid(m);
    if t > m / 2 {
        t - m
    } else {
        t
    }
}

/// The remainder modulo `X^n + 1` by long division, from the top coefficient
/// down.
fn remainder(entries: &[i64], n: usize) -> Vec<i64> {
    let mut work = entries.to_vec();
    while work.len() < n {
        work.push(0);
    }
    let mut i = work.len();
    while i > n {
        i -= 1;
        let top = work[i];
        work[i - n] -= top;
        work[i] = 0;
    }
    work.truncate(n);
    work
}

#[test]
fn degree_is_the_number_of_the_type() {
    assert_eq!(<U1 as PowerOfTwo>::to_usize(), 1);
    assert_eq!(<U2 as PowerOfTwo>::to_usize(), 2);
    assert_eq!(<U8 as PowerOfTwo>::to_usize(), 8);
    assert_eq!(<U1024 as PowerOfTwo>::to_usize(), 1024);
    assert_eq!(<Cyclotomic<U4, CharZero> as RlweRing>::degree(), 4);
    assert_eq!(<Cyclotomic<U1024, Prime7> as RlweRing>::degree(), 1024);
}

#[test]
fn characteristic_is_the_number_of_the_type() {
    assert!(<Cyclotomic<U4, CharZero> as RlweRing>::characteristic().is_zero());
    assert_eq!(
        <Cyclotomic<U4, Prime7> as RlweRing>::characteristic(),
        BigUint::from_u8(7).unwrap()
    );
}

#[test]
fn vector_keeps_its_coordinates() {
    let v: Vector = vec![-1, 0, 1].into();
    let want = vec![BigInt::from(-1), BigInt::from(0), BigInt::from(1)];
    assert_eq!(v.coordinates(), &want);
    let w: Vector = want.clone().into();
    assert_eq!(v, w);
    assert_eq!(v.clone(), w);
    let empty: Vector = Vec::<i64>::new().into();
    assert!(empty.coordinates().is_empty());
}

#[test]
fn short_vector_is_padded_with_zeros() {
    type R = Cyclotomic<U8, CharZero>;
    let x: Element<R> = element(vec![5, -6, 7]);
    let want = [5, -6, 7, 0, 0, 0, 0, 0];
    assert_eq!(x.coefficients().len(), 8);
    for i in 0..8 {
        assert_eq!(x.at(i).representant(), &BigInt::from(want[i]));
    }
    let empty: Element<R> = element(vec![]);
    for i in 0..8 {
        assert!(empty.at(i).is_zero());
    }
    let full: Element<R> = element(vec![1, 2, 3, 4, 5, 6, 7, 8]);
    for i in 0..8 {
        assert_eq!(full.at(i).representant(), &BigInt::from(i as i64 + 1));
    }
}

#[test]
fn short_vector_is_reduced_and_padded() {
    type R = Cyclotomic<U4, Prime7>;
    let x: Element<R> = element(vec![4, 10, -4]);
    let want = [-3, 3, 3, 0];
    for i in 0..4 {
        assert_eq!(x.at(i).representant(), &BigInt::from(want[i]));
    }
}

#[test]
fn fold_of_eight_entries_over_the_integers() {
    type R = Cyclotomic<U4, CharZero>;
    let x: Element<R> = element(vec![1, 2, 3, 4, 5, 6, 7, 8]);
    for i in 0..4 {
        assert_eq!(x.at(i).representant(), &BigInt::from(-4));
    }
}

#[test]
fn fold_of_eight_entries_modulo_seven() {
    type R = Cyclotomic<U4, Prime7>;
    let x: Element<R> = element(vec![1, 2, 3, 4, 5, 6, 7, 8]);
    for i in 0..4 {
        assert_eq!(x.at(i).representant(), &BigInt::from(3));
    }
}

#[test]
fn fold_agrees_with_long_division() {
    type R = Cyclotomic<U4, CharZero>;
    type S = Cyclotomic<U4, Prime17>;
    let mut rng = rand::thread_rng();
    for blocks in 1..=5 {
        for extra in 0..4 {
            let len = 4 * blocks + extra;
            let entries: Vec<i64> = (0..len).map(|_| rng.gen_range(-1000..1000)).collect();
            let want = remainder(&entries, 4);
            let x: Element<R> = element(entries.clone());
            let y: Element<S> = element(entries);
            for i in 0..4 {
                assert_eq!(x.at(i).representant(), &BigInt::from(want[i]));
                assert_eq!(y.at(i).representant(), &BigInt::from(balanced(want[i], 17)));
            }
        }
    }
}

#[test]
fn fold_in_degree_one_alternates_every_entry() {
    type R = Cyclotomic<U1, CharZero>;
    let x: Element<R> = element(vec![10, 3, 5, 1]);
    assert_eq!(x.coefficients().len(), 1);
    assert_eq!(x.at(0).representant(), &BigInt::from(11));
}

#[test]
fn sum_is_taken_by_coefficient() {
    type R = Cyclotomic<U4, Prime7>;
    let a: Element<R> = element(vec![1, 2, 3, -3]);
    let b: Element<R> = element(vec![3, 3, 3, -3]);
    let want: Element<R> = element(vec![-3, -2, -1, 1]);
    assert_eq!(a.clone() + &b, want);
    assert_eq!(b + &a, want);
    let zero: Element<R> = element(vec![]);
    assert_eq!(want.clone() + &zero, want);
}

#[test]
fn doubling_doubles_every_coefficient() {
    type R = Cyclotomic<U4, Prime7>;
    let x: Element<R> = element(vec![1, 2, 3, -3]);
    let sum = x.clone() + &x;
    let want = [2, -3, -1, 1];
    for i in 0..4 {
        assert_eq!(sum.at(i).representant(), &BigInt::from(want[i]));
    }
}

#[test]
fn hadamard_is_taken_by_coefficient() {
    type R = Cyclotomic<U4, Prime7>;
    let a: Element<R> = element(vec![1, 2, 3, -3]);
    let b: Element<R> = element(vec![3, 3, 3, -3]);
    let product = a.clone().hadamard(&b);
    let want = [3, -1, 2, 2];
    for i in 0..4 {
        assert_eq!(product.at(i).representant(), &BigInt::from(want[i]));
    }
    let square = a.clone().hadamard(&a);
    let squares = [1, -3, 2, 2];
    for i in 0..4 {
        assert_eq!(square.at(i).representant(), &BigInt::from(squares[i]));
    }
}

#[test]
fn product_over_the_integers() {
    type R = Cyclotomic<U4, CharZero>;
    let a: Element<R> = element(vec![1, 2, 3, 4]);
    let b: Element<R> = element(vec![5, 6, 7, 8]);
    let want: Element<R> = element(vec![-56, -36, 2, 60]);
    assert_eq!(R::mul(a.clone(), b.clone()), want);
    assert_eq!(R::mul(b, a), want);
}

#[test]
fn product_modulo_seven() {
    type R = Cyclotomic<U4, Prime7>;
    let a: Element<R> = element(vec![1, 2, 3, 4]);
    let b: Element<R> = element(vec![5, 6, 7, 8]);
    let product = R::mul(a, b);
    let want = [0, -1, 2, -3];
    for i in 0..4 {
        assert_eq!(product.at(i).representant(), &BigInt::from(want[i]));
    }
}

#[test]
fn power_of_x_wraps_with_a_sign() {
    type R = Cyclotomic<U4, CharZero>;
    let x: Element<R> = element(vec![0, 1]);
    let cube: Element<R> = element(vec![0, 0, 0, 1]);
    let minus_one: Element<R> = element(vec![-1]);
    assert_eq!(R::mul(cube.clone(), x.clone()), minus_one);
    let minus_x2: Element<R> = element(vec![0, 0, -1]);
    assert_eq!(R::mul(cube.clone(), cube), minus_x2);
}

#[test]
fn product_agrees_with_fold_of_the_full_product() {
    type R = Cyclotomic<U8, Prime17>;
    let mut rng = rand::thread_rng();
    for _ in 0..20 {
        let a: Vec<i64> = (0..8).map(|_| rng.gen_range(-8..=8)).collect();
        let b: Vec<i64> = (0..8).map(|_| rng.gen_range(-8..=8)).collect();
        let mut full = vec![0_i64; 15];
        for i in 0..8 {
            for j in 0..8 {
                full[i + j] += a[i] * b[j];
            }
        }
        let want: Element<R> = element(full);
        let x: Element<R> = element(a);
        let y: Element<R> = element(b);
        assert_eq!(R::mul(x, y), want);
    }
}

#[test]
fn one_is_the_identity_of_the_product() {
    type R = Cyclotomic<U8, Prime17>;
    type Z = Cyclotomic<U8, CharZero>;
    let mut rng = rand::thread_rng();
    for _ in 0..20 {
        let entries: Vec<i64> = (0..8).map(|_| rng.gen_range(-100..100)).collect();
        let x: Element<R> = element(entries.clone());
        let one: Element<R> = element(vec![1]);
        assert_eq!(R::mul(x.clone(), one.clone()), x);
        assert_eq!(R::mul(one, x.clone()), x);
        let y: Element<Z> = element(entries);
        let one: Element<Z> = element(vec![1]);
        assert_eq!(Z::mul(y.clone(), one.clone()), y);
        assert_eq!(Z::mul(one, y.clone()), y);
    }
}

#[test]
fn product_distributes_over_the_sum() {
    type R = Cyclotomic<U4, Prime7>;
    type Z = Cyclotomic<U4, CharZero>;
    let mut rng = rand::thread_rng();
    for _ in 0..50 {
        let a: Vec<i64> = (0..4).map(|_| rng.gen_range(-20..20)).collect();
        let b: Vec<i64> = (0..4).map(|_| rng.gen_range(-20..20)).collect();
        let c: Vec<i64> = (0..4).map(|_| rng.gen_range(-20..20)).collect();
        let x: Element<R> = element(a.clone());
        let y: Element<R> = element(b.clone());
        let z: Element<R> = element(c.clone());
        let left = R::mul(x.clone(), y.clone() + &z);
        let right = R::mul(x.clone(), y) + &R::mul(x, z);
        assert_eq!(left, right);
        let x: Element<Z> = element(a);
        let y: Element<Z> = element(b);
        let z: Element<Z> = element(c);
        let left = Z::mul(x.clone(), y.clone() + &z);
        let right = Z::mul(x.clone(), y) + &Z::mul(x, z);
        assert_eq!(left, right);
    }
}

#[test]
fn degree_one_ring_is_the_coefficient_domain() {
    type R = Cyclotomic<U1, Prime7>;
    let a: Element<R> = element(vec![3]);
    let b: Element<R> = element(vec![5]);
    let sum = a.clone() + &b;
    assert_eq!(sum.at(0).representant(), &BigInt::from(1));
    let product = R::mul(a.clone(), b.clone());
    assert_eq!(product.at(0).representant(), &BigInt::from(1));
    let square = a.clone().hadamard(&a);
    assert_eq!(square.at(0).representant(), &BigInt::from(2));
}

#[test]
fn element_clone_is_equal() {
    type R = Cyclotomic<U4, Prime7>;
    let a: Element<R> = element(vec![1, 2, 3, 4, 5]);
    assert_eq!(a.clone(), a);
    assert_eq!(a.coefficients().len(), 4);
}

#[test]
fn equality_compares_every_coefficient() {
    type R = Cyclotomic<U4, Prime7>;
    let a: Element<R> = element(vec![1, 2, 3, 3]);
    let same: Element<R> = element(vec![8, -5, 10, -4]);
    let other: Element<R> = element(vec![1, 2, 3, 2]);
    assert_eq!(a, same);
    assert_ne!(a, other);
    assert!(a != other);
    let v: Vector = vec![1, 2, 3].into();
    let w: Vector = vec![1, 2, 4].into();
    let shorter: Vector = vec![1, 2].into();
    assert_eq!(v, v.clone());
    assert_ne!(v, w);
    assert_ne!(v, shorter);
}

#[test]
fn coefficients_are_read_back_in_order() {
    type R = Cyclotomic<U4, Prime7>;
    let a: Element<R> = element(vec![1, 2, 3, 4]);
    let read: Vec<BigInt> = a
        .coefficients()
        .iter()
        .map(|c| c.representant().clone())
        .collect();
    let want = vec![
        BigInt::from(1),
        BigInt::from(2),
        BigInt::from(3),
        BigInt::from(-3),
    ];
    assert_eq!(read, want);
}

#[test]
fn sum_is_associative_and_has_a_zero() {
    type R = Cyclotomic<U4, Prime7>;
    let a: Element<R> = element(vec![3, 3, 3, 3]);
    let b: Element<R> = element(vec![2, 3, -3, 1]);
    let c: Element<R> = element(vec![3, -1, 2, -2]);
    let zero: Element<R> = element(vec![0, 0, 0, 0]);
    assert_eq!((a.clone() + &b) + &c, a.clone() + &(b.clone() + &c));
    assert_eq!(a.clone() + &zero, a);
    assert_eq!(a.clone().hadamard(&b), b.hadamard(&a));
}
