use num_bigint::{BigInt, Sign};
use rust_vss::bignum::BigNum;
use rust_vss::util::Util;

fn n(v: i64) -> BigNum {
    let (s, mag) = BigInt::from(v).to_u32_digits();
    BigNum { neg: s == Sign::Minus, mag }
}

fn big(x: &BigNum) -> BigInt {
    BigInt::new(if x.neg { Sign::Minus } else { Sign::Plus }, x.mag.clone())
}

#[test]
fn test_extend_gcd() {
    let a = n(26);
    let b = n(3);
    let (g, x, y) = Util::extend_gcd(&a, &b);

    assert_eq!(g, n(1));
    assert_eq!(x, n(-1));
    assert_eq!(y, n(9));
    assert_eq!(big(&a) * big(&x) + big(&b) * big(&y), big(&g));
}

#[test]
fn test_mod_inverse() {
    let exist = Util::mod_inverse(&n(3), &n(26));
    let not_exist = Util::mod_inverse(&n(4), &n(32));

    match exist {
        Some(x) => assert_eq!(x, n(9)),
        None => panic!("mod_inverse() error, did not work as expected"),
    }

    match not_exist {
        Some(x) => {
            drop(x);
            panic!("mod_inverse() error, found an inverse when it should not exist")
        }
        None => {}
    }
}

#[test]
fn test_lagrange_coefficient() {
    let i_array = [9, 1, 2, 3];
    let values = [0, 1, 2, 3, 4, 5, 6];
    let result = Util::lagrange_coefficient(&i_array[0], &values);

    assert_eq!(result, (n(0), n(1)));

    // j / (j - 1) over 2..=6: 720 / 120
    let result = Util::lagrange_coefficient(&i_array[1], &values);
    assert_eq!(result, (n(720), n(120)));

    // j / (j - 2) over {1, 3, 4, 5, 6}: 360 / -24
    let result = Util::lagrange_coefficient(&i_array[2], &values);
    assert_eq!(result, (n(360), n(-24)));

    // j / (j - 3) over {1, 2, 4, 5, 6}: 240 / 12
    let result = Util::lagrange_coefficient(&i_array[3], &values);
    assert_eq!(result, (n(240), n(12)));

    let result = Util::lagrange_coefficient(&3, &[1, 3, 4]);
    assert_eq!(result, (n(4), n(-2)));
}

#[test]
fn test_abs() {
    let minus = n(-100);
    assert_eq!(Util::abs(&minus), n(100));

    let minus = n(-0);
    assert_eq!(Util::abs(&minus), n(0));

    let plus = n(0);
    assert_eq!(Util::abs(&plus), n(0));

    let plus = n(100);
    assert_eq!(Util::abs(&plus), n(100));
}

#[test]
fn mod_inverse_of_negative_value_follows_the_gcd_sign() {
    // the Euclidean recursion on (-3, 26) ends on -1, not 1
    let (g, _, _) = Util::extend_gcd(&n(-3), &n(26));
    assert_eq!(g, n(-1));
    assert_eq!(Util::mod_inverse(&n(-3), &n(26)), None);
    // 23 == -3 (mod 26) and 23 * 17 = 391 = 1 + 15 * 26
    assert_eq!(Util::mod_inverse(&n(23), &n(26)), Some(n(17)));
}

#[test]
fn lagrange_coefficient_with_gaps() {
    // positions {1, 2, 4}: for 1, (2 * 4) / ((2 - 1) * (4 - 1)) = 8 / 3
    assert_eq!(Util::lagrange_coefficient(&1, &[1, 2, 4]), (n(8), n(3)));
    // for 4, (1 * 2) / ((1 - 4) * (2 - 4)) = 2 / 6
    assert_eq!(Util::lagrange_coefficient(&4, &[4, 2, 1]), (n(2), n(6)));
    // a single position gives the empty product
    assert_eq!(Util::lagrange_coefficient(&5, &[5]), (n(1), n(1)));
}

#[test]
fn extend_gcd_of_zero() {
    let (g, x, y) = Util::extend_gcd(&n(0), &n(7));
    assert_eq!((g, x, y), (n(7), n(0), n(1)));
}
