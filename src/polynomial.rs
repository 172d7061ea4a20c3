//! Polynomials with integer coefficients, as used for Shamir sharing.

use vstd::arithmetic::power::pow;
use vstd::prelude::*;

use crate::bignum::{big_add, big_mul, big_pow, dup_all, nums, random_below, BigNum};

verus! {

/// `c[0] + c[1]*x + ... + c[n-1]*x^(n-1)` over the integers.
pub open spec fn poly_eval(c: Seq<int>, x: int) -> int
    decreases c.len(),
{
    if c.len() == 0 {
        0
    } else {
        poly_eval(c.drop_last(), x) + c.last() * pow(x, (c.len() - 1) as nat)
    }
}

/// `p(X) = a_0 + a_1 X + ... + a_{t-1} X^{t-1}`.
pub struct Polynomial {
    pub coefficients: Vec<BigNum>,
}

impl Polynomial {
    pub open spec fn coeffs(&self) -> Seq<int> {
        nums(self.coefficients@)
    }

    /// The polynomial without coefficients.
    pub fn new() -> (r: Polynomial)
        ensures
            r.coeffs().len() == 0,
    {
        Polynomial { coefficients: Vec::new() }
    }

    /// Adopts the given coefficients, lowest degree first.
    pub fn init_coefficients(&mut self, coefficients: &[BigNum])
        ensures
            final(self).coeffs() == nums(coefficients@),
    {
        self.coefficients = dup_all(coefficients);
    }

    /// Draws `degree + 1` coefficients uniformly from `[0, q)`.
    pub fn init(&mut self, degree: i32, q: &BigNum)
        requires
            q.value() > 0,
        ensures
            final(self).coeffs().len() == if degree >= 0 { degree + 1 } else { 0 },
            forall|k: int|
                0 <= k < final(self).coeffs().len() ==> 0 <= #[trigger] final(self).coeffs()[k]
                    < q.value(),
    {
        let mut coefficients: Vec<BigNum> = Vec::new();
        let mut k: i64 = 0;
        while k <= degree as i64
            invariant
                q.value() > 0,
                0 <= k,
                k <= degree + 1 || k == 0,
                coefficients@.len() == k,
                forall|t: int|
                    0 <= t < k ==> 0 <= #[trigger] coefficients@[t].value() < q.value(),
            decreases degree + 1 - k,
        {
            coefficients.push(random_below(q));
            k += 1;
        }
        assert(forall|t: int|
            0 <= t < k ==> #[trigger] nums(coefficients@)[t] == coefficients@[t].value());
        self.coefficients = coefficients;
    }

    /// `p(x)` over the integers, without reduction.
    pub fn get_value(&self, x: &BigNum) -> (r: BigNum)
        requires
            self.coefficients@.len() > 0,
        ensures
            r.value() == poly_eval(self.coeffs(), x.value()),
    {
        let ghost c = self.coeffs();
        let mut result = self.coefficients[0].dup();
        assert(poly_eval(c.subrange(0, 1), x.value()) == c[0]) by {
            let c1 = c.subrange(0, 1);
            assert(c1.drop_last() =~= Seq::<int>::empty());
            assert(poly_eval(c1.drop_last(), x.value()) == 0);
            vstd::arithmetic::power::lemma_pow0(x.value());
            assert(c1.last() == c[0]);
        }
        let mut i: usize = 1;
        while i < self.coefficients.len()
            invariant
                1 <= i <= self.coefficients@.len(),
                c == self.coeffs(),
                result.value() == poly_eval(c.subrange(0, i as int), x.value()),
            decreases self.coefficients@.len() - i,
        {
            let term = big_mul(&self.coefficients[i], &big_pow(x, i));
            result = big_add(&result, &term);
            assert(c.subrange(0, i as int + 1).drop_last() =~= c.subrange(0, i as int));
            i += 1;
        }
        assert(c.subrange(0, c.len() as int) =~= c);
        result
    }
}

} // verus!
