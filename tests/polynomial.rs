use num_bigint::{BigInt, Sign};
use rust_vss::bignum::BigNum;
use rust_vss::polynomial::Polynomial;

fn n(v: i64) -> BigNum {
    let (s, mag) = BigInt::from(v).to_u32_digits();
    BigNum { neg: s == Sign::Minus, mag }
}

fn big(x: &BigNum) -> BigInt {
    BigInt::new(if x.neg { Sign::Minus } else { Sign::Plus }, x.mag.clone())
}

#[test]
fn test_init_polynomial() {
    let mut polynomial = Polynomial::new();
    let degree = 3;

    polynomial.init(degree, &n(5));

    assert_eq!(polynomial.coefficients.len(), (degree + 1) as usize);
}

#[test]
fn test_get_value() {
    let mut polynomial = Polynomial::new();

    polynomial.init_coefficients(&vec![n(3), n(2), n(2), n(4)]);

    // p(0) = a_0 = 3
    assert_eq!(polynomial.get_value(&n(0)), n(3));

    // p(1) = 11
    assert_eq!(polynomial.get_value(&n(1)), n(11));

    // p(2) = 47
    assert_eq!(polynomial.get_value(&n(2)), n(47));

    // p(3) = 135
    assert_eq!(polynomial.get_value(&n(3)), n(135));
}

#[test]
fn test_get_value2() {
    let q = n(15486967);
    let coefficients = vec![
        n(105211),
        n(1548877),
        n(892134),
        n(3490857),
        n(324),
        n(14234735),
    ];
    let x = n(278);
    let mut polynomial = Polynomial::new();

    polynomial.init_coefficients(&coefficients);

    assert_eq!(big(&polynomial.get_value(&x)) % big(&q), BigInt::from(4115179));
}

#[test]
fn random_coefficients_lie_below_the_bound() {
    let mut polynomial = Polynomial::new();
    polynomial.init(20, &n(7));
    assert_eq!(polynomial.coefficients.len(), 21);
    for c in polynomial.coefficients.iter() {
        assert!(!c.is_negative());
        assert!(big(c) < BigInt::from(7));
    }
}

#[test]
fn get_value_at_negative_point() {
    let mut polynomial = Polynomial::new();
    polynomial.init_coefficients(&vec![n(1), n(-2), n(3)]);
    // 1 + 4 + 12
    assert_eq!(polynomial.get_value(&n(-2)), n(17));
}
