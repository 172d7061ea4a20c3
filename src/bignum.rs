//! Arbitrary-precision signed integers held as plain values: a sign and a
//! little-endian sequence of 32-bit limbs. The arithmetic itself is carried
//! out by `num_bigint`; each operation states its result over `int`.

use num_bigint::{BigInt, BigUint, RandBigInt, Sign};
use num_integer::Integer;
use vstd::arithmetic::power::pow;
use vstd::prelude::*;

verus! {

/// The number that a little-endian sequence of 32-bit limbs denotes.
pub open spec fn limbs_value(s: Seq<u32>) -> nat
    decreases s.len(),
{
    if s.len() == 0 {
        0
    } else {
        s[0] as nat + 4294967296 * limbs_value(s.subrange(1, s.len() as int))
    }
}

/// Quotient of `a / b` rounded toward zero, as Rust's `/` on integers.
pub open spec fn tdiv(a: int, b: int) -> int {
    let q = abs(a) / abs(b);
    if (a < 0) == (b < 0) {
        q
    } else {
        -q
    }
}

/// Remainder of `a / b` rounded toward zero: it has the sign of `a`.
pub open spec fn trem(a: int, b: int) -> int {
    a - b * tdiv(a, b)
}

pub open spec fn abs(a: int) -> int {
    if a < 0 {
        -a
    } else {
        a
    }
}

/// Greatest common divisor, by Euclid's algorithm; `gcd(0, 0) == 0`.
pub open spec fn gcd(a: nat, b: nat) -> nat
    decreases b,
{
    if b == 0 {
        a
    } else {
        gcd(b, a % b)
    }
}

/// Bitwise exclusive or of two non-negative integers.
pub open spec fn xor_nat(a: nat, b: nat) -> nat
    decreases a + b,
{
    if a == 0 {
        b
    } else if b == 0 {
        a
    } else {
        (if a % 2 == b % 2 {
            0nat
        } else {
            1nat
        }) + 2 * xor_nat(a / 2, b / 2)
    }
}

/// The values of a sequence of integers.
pub open spec fn nums(v: Seq<BigNum>) -> Seq<int> {
    v.map_values(|b: BigNum| b.value())
}

/// A signed integer of any size. `neg` with a zero magnitude denotes zero.
#[derive(Debug, Clone)]
pub struct BigNum {
    pub neg: bool,
    pub mag: Vec<u32>,
}

impl BigNum {
    pub open spec fn value(&self) -> int {
        if self.neg {
            -(limbs_value(self.mag@) as int)
        } else {
            limbs_value(self.mag@) as int
        }
    }

    pub fn zero() -> (r: BigNum)
        ensures
            r.value() == 0,
    {
        let r = BigNum { neg: false, mag: Vec::new() };
        assert(r.mag@.len() == 0);
        r
    }

    /// Relies on `From<i64> for BigInt`, which holds the value exactly.
    #[verifier::external_body]
    pub(crate) fn from_i64(n: i64) -> (r: BigNum)
        ensures
            r.value() == n as int,
    {
        let (s, mag) = BigInt::from(n).to_u32_digits();
        BigNum { neg: s == Sign::Minus, mag }
    }

    /// Whether the value is below zero.
    pub fn is_negative(&self) -> (r: bool)
        ensures
            r == (self.value() < 0),
    {
        big_lt(self, &BigNum::zero())
    }

    /// A copy with the same value.
    pub fn dup(&self) -> (r: BigNum)
        ensures
            r.value() == self.value(),
    {
        let mag = self.mag.clone();
        assert(mag@ =~= self.mag@);
        BigNum { neg: self.neg, mag }
    }
}

impl PartialEq for BigNum {
    fn eq(&self, other: &BigNum) -> (r: bool) {
        big_eq(self, other)
    }
}

impl vstd::std_specs::cmp::PartialEqSpecImpl for BigNum {
    open spec fn obeys_eq_spec() -> bool {
        true
    }

    open spec fn eq_spec(&self, other: &BigNum) -> bool {
        self.value() == other.value()
    }
}

/// Relies on `Add for &BigInt`: the exact sum.
#[verifier::external_body]
pub(crate) fn big_add(a: &BigNum, b: &BigNum) -> (r: BigNum)
    ensures
        r.value() == a.value() + b.value(),
{
    let x = BigInt::new(if a.neg { Sign::Minus } else { Sign::Plus }, a.mag.clone());
    let y = BigInt::new(if b.neg { Sign::Minus } else { Sign::Plus }, b.mag.clone());
    let (s, mag) = (x + y).to_u32_digits();
    BigNum { neg: s == Sign::Minus, mag }
}

/// Relies on `Sub for &BigInt`: the exact difference.
#[verifier::external_body]
pub(crate) fn big_sub(a: &BigNum, b: &BigNum) -> (r: BigNum)
    ensures
        r.value() == a.value() - b.value(),
{
    let x = BigInt::new(if a.neg { Sign::Minus } else { Sign::Plus }, a.mag.clone());
    let y = BigInt::new(if b.neg { Sign::Minus } else { Sign::Plus }, b.mag.clone());
    let (s, mag) = (x - y).to_u32_digits();
    BigNum { neg: s == Sign::Minus, mag }
}

/// Relies on `Mul for &BigInt`: the exact product.
#[verifier::external_body]
pub(crate) fn big_mul(a: &BigNum, b: &BigNum) -> (r: BigNum)
    ensures
        r.value() == a.value() * b.value(),
{
    let x = BigInt::new(if a.neg { Sign::Minus } else { Sign::Plus }, a.mag.clone());
    let y = BigInt::new(if b.neg { Sign::Minus } else { Sign::Plus }, b.mag.clone());
    let (s, mag) = (x * y).to_u32_digits();
    BigNum { neg: s == Sign::Minus, mag }
}

/// Relies on `Div for &BigInt`, which rounds toward zero and panics on a
/// zero divisor.
#[verifier::external_body]
pub(crate) fn big_div(a: &BigNum, b: &BigNum) -> (r: BigNum)
    requires
        b.value() != 0,
    ensures
        r.value() == tdiv(a.value(), b.value()),
{
    let x = BigInt::new(if a.neg { Sign::Minus } else { Sign::Plus }, a.mag.clone());
    let y = BigInt::new(if b.neg { Sign::Minus } else { Sign::Plus }, b.mag.clone());
    let (s, mag) = (x / y).to_u32_digits();
    BigNum { neg: s == Sign::Minus, mag }
}

/// Relies on `Rem for &BigInt`, whose result has the sign of the dividend and
/// which panics on a zero divisor.
#[verifier::external_body]
pub(crate) fn big_rem(a: &BigNum, b: &BigNum) -> (r: BigNum)
    requires
        b.value() != 0,
    ensures
        r.value() == trem(a.value(), b.value()),
{
    let x = BigInt::new(if a.neg { Sign::Minus } else { Sign::Plus }, a.mag.clone());
    let y = BigInt::new(if b.neg { Sign::Minus } else { Sign::Plus }, b.mag.clone());
    let (s, mag) = (x % y).to_u32_digits();
    BigNum { neg: s == Sign::Minus, mag }
}

/// Relies on `Integer::mod_floor` for `BigInt`: for a positive modulus the
/// result lies in `[0, m)`.
#[verifier::external_body]
pub(crate) fn big_mod_floor(a: &BigNum, m: &BigNum) -> (r: BigNum)
    requires
        m.value() > 0,
    ensures
        r.value() == a.value() % m.value(),
{
    let x = BigInt::new(if a.neg { Sign::Minus } else { Sign::Plus }, a.mag.clone());
    let y = BigInt::new(if m.neg { Sign::Minus } else { Sign::Plus }, m.mag.clone());
    let (s, mag) = x.mod_floor(&y).to_u32_digits();
    BigNum { neg: s == Sign::Minus, mag }
}

/// Relies on `BigInt::modpow`, which rounds like `mod_floor` and panics on a
/// negative exponent or a zero modulus.
#[verifier::external_body]
pub(crate) fn big_modpow(b: &BigNum, e: &BigNum, m: &BigNum) -> (r: BigNum)
    requires
        e.value() >= 0,
        m.value() > 0,
    ensures
        r.value() == pow(b.value(), e.value() as nat) % m.value(),
{
    let x = BigInt::new(if b.neg { Sign::Minus } else { Sign::Plus }, b.mag.clone());
    let y = BigInt::new(if e.neg { Sign::Minus } else { Sign::Plus }, e.mag.clone());
    let z = BigInt::new(if m.neg { Sign::Minus } else { Sign::Plus }, m.mag.clone());
    let (s, mag) = x.modpow(&y, &z).to_u32_digits();
    BigNum { neg: s == Sign::Minus, mag }
}

/// Relies on `Integer::gcd` for `BigInt`: the non-negative greatest common
/// divisor of the magnitudes.
#[verifier::external_body]
pub(crate) fn big_gcd(a: &BigNum, b: &BigNum) -> (r: BigNum)
    ensures
        r.value() == gcd(abs(a.value()) as nat, abs(b.value()) as nat),
{
    let x = BigInt::new(if a.neg { Sign::Minus } else { Sign::Plus }, a.mag.clone());
    let y = BigInt::new(if b.neg { Sign::Minus } else { Sign::Plus }, b.mag.clone());
    let (s, mag) = x.gcd(&y).to_u32_digits();
    BigNum { neg: s == Sign::Minus, mag }
}

/// Relies on `Pow<usize> for &BigInt`: `b` raised to `e`.
#[verifier::external_body]
pub(crate) fn big_pow(b: &BigNum, e: usize) -> (r: BigNum)
    ensures
        r.value() == pow(b.value(), e as nat),
{
    let x = BigInt::new(if b.neg { Sign::Minus } else { Sign::Plus }, b.mag.clone());
    let (s, mag) = num_traits::Pow::pow(&x, e).to_u32_digits();
    BigNum { neg: s == Sign::Minus, mag }
}

/// A copy of each number, in order.
pub fn dup_all(v: &[BigNum]) -> (r: Vec<BigNum>)
    ensures
        nums(r@) == nums(v@),
{
    let mut r: Vec<BigNum> = Vec::new();
    let mut k: usize = 0;
    while k < v.len()
        invariant
            k <= v@.len(),
            r@.len() == k,
            forall|t: int| 0 <= t < k ==> #[trigger] r@[t].value() == v@[t].value(),
        decreases v@.len() - k,
    {
        r.push(v[k].dup());
        k += 1;
    }
    assert(nums(r@) =~= nums(v@));
    r
}

/// Relies on `BitXor for BigUint`: the bitwise exclusive or.
#[verifier::external_body]
pub(crate) fn big_xor(a: &BigNum, b: &BigNum) -> (r: BigNum)
    requires
        a.value() >= 0,
        b.value() >= 0,
    ensures
        r.value() == xor_nat(a.value() as nat, b.value() as nat),
{
    let x = BigUint::new(a.mag.clone());
    let y = BigUint::new(b.mag.clone());
    BigNum { neg: false, mag: (x ^ y).to_u32_digits() }
}

/// Relies on `PartialEq for BigInt`: equality of values.
#[verifier::external_body]
pub(crate) fn big_eq(a: &BigNum, b: &BigNum) -> (r: bool)
    ensures
        r == (a.value() == b.value()),
{
    let x = BigInt::new(if a.neg { Sign::Minus } else { Sign::Plus }, a.mag.clone());
    let y = BigInt::new(if b.neg { Sign::Minus } else { Sign::Plus }, b.mag.clone());
    x == y
}

/// Relies on `PartialOrd for BigInt`: the order of values.
#[verifier::external_body]
pub(crate) fn big_lt(a: &BigNum, b: &BigNum) -> (r: bool)
    ensures
        r == (a.value() < b.value()),
{
    let x = BigInt::new(if a.neg { Sign::Minus } else { Sign::Plus }, a.mag.clone());
    let y = BigInt::new(if b.neg { Sign::Minus } else { Sign::Plus }, b.mag.clone());
    x < y
}

/// Relies on `RandBigInt::gen_biguint_below` over the thread-local generator,
/// which panics on a zero bound: some value in `[0, bound)`.
#[verifier::external_body]
pub(crate) fn random_below(bound: &BigNum) -> (r: BigNum)
    requires
        bound.value() > 0,
    ensures
        0 <= r.value() < bound.value(),
{
    let b = BigUint::new(bound.mag.clone());
    let v = rand::thread_rng().gen_biguint_below(&b);
    BigNum { neg: false, mag: v.to_u32_digits() }
}

/// Relies on `num_primes::Generator::new_uint`, which draws `bits` random
/// bits: some value in `[0, 2^bits)`.
#[verifier::external_body]
pub(crate) fn random_bits(bits: usize) -> (r: BigNum)
    ensures
        0 <= r.value() < pow(2, bits as nat),
{
    BigNum { neg: false, mag: num_primes::Generator::new_uint(bits).to_u32_digits() }
}

/// Relies on `num_primes::Generator::new_prime`, which draws `bits`-bit
/// candidates until one passes its primality tests: some non-negative value.
/// Small sizes are left out: a drawn candidate of 3 makes its Miller-Rabin
/// test ask for a random number in an empty range, which panics. That draw
/// stays possible at every size, with a chance near `2^-(bits-2)` per draw,
/// negligible from 32 bits on.
#[verifier::external_body]
pub(crate) fn random_prime(bits: usize) -> (r: BigNum)
    requires
        bits >= 32,
    ensures
        r.value() >= 0,
{
    BigNum { neg: false, mag: num_primes::Generator::new_prime(bits).to_u32_digits() }
}

/// Relies on `num_primes::Generator::safe_prime`, which draws `bits`-bit
/// candidates below `2^bits` until both the candidate and its half
/// `(r - 1) / 2` pass the primality tests. Those tests reject zero and every
/// even number (two fails the small-prime division), so the half is odd and
/// `r mod 4 == 3`. Small sizes are left out for the same reason as with
/// `random_prime`: a candidate of 3 (or a half of 3) panics, a chance that
/// stays at every size and is negligible from 32 bits on.
#[verifier::external_body]
pub(crate) fn random_safe_prime(bits: usize) -> (r: BigNum)
    requires
        bits >= 32,
    ensures
        0 <= r.value() < pow(2, bits as nat),
        r.value() % 4 == 3,
{
    BigNum { neg: false, mag: num_primes::Generator::safe_prime(bits).to_u32_digits() }
}

} // verus!
