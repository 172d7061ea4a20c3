use num_primes::{BigUint, Verification};
use num_bigint::{BigInt, Sign};
use num_integer::Integer;
use rust_vss::bignum::BigNum;
use rust_vss::vss::VSS;

fn n(v: i64) -> BigNum {
    let (s, mag) = BigInt::from(v).to_u32_digits();
    BigNum { neg: s == Sign::Minus, mag }
}

fn big(x: &BigNum) -> BigInt {
    BigInt::new(if x.neg { Sign::Minus } else { Sign::Plus }, x.mag.clone())
}

fn to_biguint(x: &BigNum) -> BigUint {
    assert!(!x.is_negative());
    BigUint::new(x.mag.clone())
}

#[test]
fn test_new() {
    let vss = VSS::new();

    assert!(Verification::is_safe_prime(&to_biguint(&vss.q)));
    assert!(Verification::is_prime(&to_biguint(&vss.g)));
    assert!(!Verification::is_safe_prime(&to_biguint(&vss.g)));
}

#[test]
fn test_init() {
    let vss = VSS::init(64);
    assert!(Verification::is_safe_prime(&to_biguint(&vss.q)));
    assert!(Verification::is_prime(&to_biguint(&vss.g)));
    assert!(!Verification::is_safe_prime(&to_biguint(&vss.g)));

    let vss = VSS::init(32);
    assert!(Verification::is_prime(&to_biguint(&vss.q)));
    assert!(Verification::is_prime(&to_biguint(&vss.g)));
    assert_eq!(
        to_biguint(&vss.g),
        (to_biguint(&vss.q) - BigUint::new(vec![1])) / BigUint::new(vec![2])
    )
}

#[test]
fn test_generate_private_key() {
    let mut vss = VSS::new();
    vss.q = n(49999);

    assert!(Verification::is_prime(&to_biguint(&vss.q)));

    let private_key = vss.generate_private_key();

    assert_eq!(
        big(&private_key).gcd(&(big(&vss.q) - BigInt::from(1))),
        BigInt::from(1)
    );
}

#[allow(non_snake_case)]
#[test]
fn test_generate_public_key() {
    let mut vss = VSS::new();
    let q = n(179426549);
    let g = n(1301081);
    let G = n(15486487);

    vss.q = q;
    vss.g = g;
    vss.G = G;

    let private_key = n(105929);
    let public_key = vss.generate_public_key(&private_key);

    assert_eq!(public_key, n(148446388));
}

#[test]
fn new_group_has_generator_two() {
    let vss = VSS::new();
    assert_eq!(vss.G, n(2));
    assert_eq!(vss.length, 2048);
    assert_eq!(vss.q.mag.len(), 64);
}

#[test]
fn drawn_group_is_a_safe_prime_below_its_bound() {
    let vss = VSS::init(32);
    assert_eq!(big(&vss.q) % BigInt::from(4), BigInt::from(3));
    assert!(big(&vss.q) < BigInt::from(1u64 << 32));
    assert_eq!(big(&vss.g), (big(&vss.q) - BigInt::from(1)) / BigInt::from(2));
}
