//! Modular helpers: the extended Euclidean algorithm, modular inverses,
//! Lagrange coefficients as unreduced signed fractions, and magnitudes.

use vstd::arithmetic::div_mod::lemma_fundamental_div_mod;
use vstd::prelude::*;

use crate::bignum::{abs, big_add, big_div, big_eq, big_mul, big_rem, big_sub, tdiv, trem, BigNum};

verus! {

/// Rounding toward zero leaves a remainder smaller than the divisor in
/// magnitude, with the sign of the dividend.
pub proof fn lemma_trem_bounds(a: int, b: int)
    requires
        b != 0,
    ensures
        abs(trem(a, b)) < abs(b),
        a >= 0 ==> trem(a, b) >= 0,
        a <= 0 ==> trem(a, b) <= 0,
        a >= 0 && b > 0 ==> trem(a, b) == a % b && tdiv(a, b) == a / b,
{
    let q = abs(a) / abs(b);
    let r = abs(a) % abs(b);
    lemma_fundamental_div_mod(abs(a), abs(b));
    assert(abs(a) == abs(b) * q + r);
    assert(0 <= r < abs(b));
    if (a < 0) == (b < 0) {
        assert(tdiv(a, b) == q);
        if a >= 0 {
            assert(trem(a, b) == r) by (nonlinear_arith)
                requires
                    a >= 0, b > 0 || a == 0, abs(a) == a, abs(b) == b || a == 0,
                    trem(a, b) == a - b * q, abs(a) == abs(b) * q + r, b != 0,
                    abs(b) == (if b < 0 { -b } else { b }),
            ;
        } else {
            assert(trem(a, b) == -r) by (nonlinear_arith)
                requires
                    a < 0, b < 0, abs(a) == -a, abs(b) == -b, trem(a, b) == a - b * q,
                    abs(a) == abs(b) * q + r,
            ;
        }
    } else {
        assert(tdiv(a, b) == -q);
        if a >= 0 {
            assert(trem(a, b) == r) by (nonlinear_arith)
                requires
                    a >= 0, b < 0, abs(a) == a, abs(b) == -b, trem(a, b) == a - b * (-q),
                    abs(a) == abs(b) * q + r,
            ;
        } else {
            assert(trem(a, b) == -r) by (nonlinear_arith)
                requires
                    a < 0, b > 0, abs(a) == -a, abs(b) == b, trem(a, b) == a - b * (-q),
                    abs(a) == abs(b) * q + r,
            ;
        }
    }
}

/// The extended Euclidean algorithm, recursing on `(b rem a, a)` with
/// remainders rounded toward zero.
pub open spec fn egcd(a: int, b: int) -> (int, int, int)
    decreases abs(a),
    via egcd_decreases
{
    if a == 0 {
        (b, 0, 1)
    } else {
        let (g, x, y) = egcd(trem(b, a), a);
        (g, y - tdiv(b, a) * x, x)
    }
}

#[via_fn]
proof fn egcd_decreases(a: int, b: int) {
    if a != 0 {
        lemma_trem_bounds(b, a);
    }
}

/// Bézout's identity for the triple that `egcd` yields.
pub proof fn lemma_egcd_bezout(a: int, b: int)
    ensures
        a * egcd(a, b).1 + b * egcd(a, b).2 == egcd(a, b).0,
    decreases abs(a),
{
    if a != 0 {
        lemma_trem_bounds(b, a);
        lemma_egcd_bezout(trem(b, a), a);
        let (g, x, y) = egcd(trem(b, a), a);
        let t = tdiv(b, a);
        assert(a * (y - t * x) + b * x == g) by (nonlinear_arith)
            requires
                trem(b, a) * x + a * y == g,
                trem(b, a) == b - a * t,
        ;
    }
}

/// The inverse of `a` modulo `m` that `mod_inverse` yields: present when
/// the extended Euclidean algorithm ends on `1`.
pub open spec fn inverse(a: int, m: int) -> Option<int> {
    let (g, x, y) = egcd(a, m);
    if g == 1 {
        Some(trem(trem(x, m) + m, m))
    } else {
        None
    }
}

/// For a positive modulus, what `inverse` yields lies in `[0, m)` and is an
/// inverse of `a`.
pub proof fn lemma_inverse_is_inverse(a: int, m: int)
    requires
        m != 0,
    ensures
        inverse(a, m) matches Some(v) ==> m > 0 ==> 0 <= v < m && (a * v) % m == 1int % m,
{
    let (gg, xx, yy) = egcd(a, m);
    if gg == 1 && m > 0 {
        lemma_egcd_bezout(a, m);
        lemma_trem_bounds(xx, m);
        lemma_trem_bounds(trem(xx, m) + m, m);
        let v = trem(trem(xx, m) + m, m);
        let k = tdiv(xx, m);
        assert(v == (trem(xx, m) + m) % m);
        assert(trem(xx, m) == xx - m * k);
        assert(a * xx + m * yy == 1);
        let z = xx - m * k + m;
        let t = a * (1 - k) - yy;
        assert(a * z == m * t + 1) by (nonlinear_arith)
            requires
                a * xx + m * yy == 1,
                z == xx - m * k + m,
                t == a * (1 - k) - yy,
        ;
        vstd::arithmetic::div_mod::lemma_mul_mod_noop_right(a, z, m);
        vstd::arithmetic::div_mod::lemma_mod_multiples_vanish(t, 1, m);
    }
}

/// The Lagrange numerator: the product of the members `j` of `s` with
/// `1 <= j <= hi` and `j != i`.
pub open spec fn lagrange_num(i: int, s: Seq<i64>, hi: int) -> int
    decreases hi,
{
    if hi < 1 {
        1
    } else if hi != i && s.contains(hi as i64) {
        lagrange_num(i, s, hi - 1) * hi
    } else {
        lagrange_num(i, s, hi - 1)
    }
}

/// The Lagrange denominator: the product of `j - i` over the same `j`.
pub open spec fn lagrange_den(i: int, s: Seq<i64>, hi: int) -> int
    decreases hi,
{
    if hi < 1 {
        1
    } else if hi != i && s.contains(hi as i64) {
        lagrange_den(i, s, hi - 1) * (hi - i)
    } else {
        lagrange_den(i, s, hi - 1)
    }
}

/// The largest member of a non-empty sequence.
pub open spec fn seq_max(s: Seq<i64>) -> int
    decreases s.len(),
{
    if s.len() <= 1 {
        s[0] as int
    } else {
        let m = seq_max(s.drop_last());
        if s.last() > m {
            s.last() as int
        } else {
            m
        }
    }
}

/// The coefficient of position `i` over the positions `s`, as an unreduced
/// fraction; `(0, 1)` when `i` is not among them.
pub open spec fn lagrange(i: i64, s: Seq<i64>) -> (int, int) {
    if !s.contains(i) {
        (0, 1)
    } else {
        (lagrange_num(i as int, s, seq_max(s)), lagrange_den(i as int, s, seq_max(s)))
    }
}

/// Every factor of the denominator is non-zero.
pub proof fn lemma_lagrange_den_nonzero(i: int, s: Seq<i64>, hi: int)
    ensures
        lagrange_den(i, s, hi) != 0,
    decreases hi,
{
    if hi >= 1 {
        lemma_lagrange_den_nonzero(i, s, hi - 1);
        let d = lagrange_den(i, s, hi - 1);
        if hi != i && s.contains(hi as i64) {
            assert(d * (hi - i) != 0) by (nonlinear_arith)
                requires
                    d != 0, hi - i != 0,
            ;
        }
    }
}

/// Every factor of the numerator is positive.
pub proof fn lemma_lagrange_num_positive(i: int, s: Seq<i64>, hi: int)
    ensures
        lagrange_num(i, s, hi) > 0,
    decreases hi,
{
    if hi >= 1 {
        lemma_lagrange_num_positive(i, s, hi - 1);
        let n = lagrange_num(i, s, hi - 1);
        if hi != i && s.contains(hi as i64) {
            assert(n * hi > 0) by (nonlinear_arith)
                requires
                    n > 0, hi >= 1,
            ;
        }
    }
}

fn contains_i64(values: &[i64], x: i64) -> (r: bool)
    ensures
        r == values@.contains(x),
{
    let mut k: usize = 0;
    while k < values.len()
        invariant
            k <= values@.len(),
            forall|t: int| 0 <= t < k ==> values@[t] != x,
        decreases values@.len() - k,
    {
        if values[k] == x {
            assert(values@[k as int] == x);
            return true;
        }
        k += 1;
    }
    false
}

fn max_i64(values: &[i64]) -> (r: i64)
    requires
        values@.len() > 0,
    ensures
        r == seq_max(values@),
{
    let mut m: i64 = values[0];
    let mut k: usize = 1;
    while k < values.len()
        invariant
            1 <= k <= values@.len(),
            m == seq_max(values@.subrange(0, k as int)),
        decreases values@.len() - k,
    {
        assert(values@.subrange(0, k as int + 1).drop_last() =~= values@.subrange(0, k as int));
        if values[k] > m {
            m = values[k];
        }
        k += 1;
    }
    assert(values@.subrange(0, values@.len() as int) =~= values@);
    m
}

/// Namespace of the modular helpers.
pub struct Util {}

impl Util {
    /// The extended Euclidean algorithm: `(g, x, y)` with `a*x + b*y == g`.
    pub fn extend_gcd(a: &BigNum, b: &BigNum) -> (r: (BigNum, BigNum, BigNum))
        ensures
            (r.0.value(), r.1.value(), r.2.value()) == egcd(a.value(), b.value()),
            a.value() * r.1.value() + b.value() * r.2.value() == r.0.value(),
        decreases abs(a.value()),
    {
        proof {
            lemma_egcd_bezout(a.value(), b.value());
        }
        let zero = BigNum::zero();
        if big_eq(a, &zero) {
            (b.dup(), BigNum::zero(), BigNum::from_i64(1))
        } else {
            let rem = big_rem(b, a);
            proof {
                lemma_trem_bounds(b.value(), a.value());
            }
            let (g, x, y) = Util::extend_gcd(&rem, a);
            let quot = big_div(b, a);
            let qx = big_mul(&quot, &x);
            (g, big_sub(&y, &qx), x)
        }
    }

    /// The inverse of `a` modulo `modular`, when `a` and `modular` are
    /// coprime in the sense of the extended Euclidean algorithm.
    pub fn mod_inverse(a: &BigNum, modular: &BigNum) -> (r: Option<BigNum>)
        requires
            modular.value() != 0,
        ensures
            r matches Some(v) ==> inverse(a.value(), modular.value()) == Some(v.value()),
            r is None ==> inverse(a.value(), modular.value()) is None,
            r.is_some() && modular.value() > 0 ==> 0 <= r.unwrap().value() < modular.value()
                && (a.value() * r.unwrap().value()) % modular.value() == 1int % modular.value(),
    {
        let (g, x, _) = Util::extend_gcd(a, modular);
        let one = BigNum::from_i64(1);
        if !big_eq(&g, &one) {
            None
        } else {
            let xr = big_rem(&x, modular);
            let shifted = big_add(&xr, modular);
            let result = big_rem(&shifted, modular);
            proof {
                lemma_inverse_is_inverse(a.value(), modular.value());
            }
            Some(result)
        }
    }

    /// `lagrange_coefficient(i, values)`: the product over `j` in
    /// `1..=max(values)` with `j` in `values` and `j != i` of `j / (j - i)`,
    /// as an unreduced `(numerator, denominator)`; `(0, 1)` when `i` is not
    /// in `values`.
    pub fn lagrange_coefficient(i: &i64, values: &[i64]) -> (r: (BigNum, BigNum))
        ensures
            (r.0.value(), r.1.value()) == lagrange(*i, values@),
    {
        if !contains_i64(values, *i) {
            return (BigNum::zero(), BigNum::from_i64(1));
        }
        let mut numerator = BigNum::from_i64(1);
        let mut denominator = BigNum::from_i64(1);
        let max = max_i64(values);
        let ghost s = values@;
        let bi = BigNum::from_i64(*i);
        let mut j: i128 = 1;
        while j <= max as i128
            invariant
                1 <= j,
                j <= max as int + 1 || j == 1,
                max == seq_max(s),
                s == values@,
                bi.value() == *i as int,
                numerator.value() == lagrange_num(*i as int, s, j - 1),
                denominator.value() == lagrange_den(*i as int, s, j - 1),
            decreases max as int + 1 - j,
        {
            let jj = j as i64;
            if jj != *i && contains_i64(values, jj) {
                let bj = BigNum::from_i64(jj);
                numerator = big_mul(&numerator, &bj);
                let diff = big_sub(&bj, &bi);
                denominator = big_mul(&denominator, &diff);
            }
            j += 1;
        }
        assert(j - 1 == max || (max < 1 && j == 1));
        (numerator, denominator)
    }

    /// The magnitude of `n`.
    pub fn abs(n: &BigNum) -> (r: BigNum)
        ensures
            r.value() == abs(n.value()),
    {
        let mag = n.mag.clone();
        assert(mag@ =~= n.mag@);
        BigNum { neg: false, mag }
    }
}

} // verus!
