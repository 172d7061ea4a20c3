//! Byte encodings of integers and the Fiat–Shamir transcript: the
//! concatenated base-10 ASCII encodings of the absorbed integers, hashed with
//! SHA-256 and read back as a big-endian integer.

use num_bigint::BigUint;
use sha2::{Digest, Sha256};
use vstd::prelude::*;

use crate::bignum::BigNum;

verus! {

/// The base-10 ASCII digits of `n`, most significant first, without leading
/// zeros (`0` is the single digit `"0"`).
pub open spec fn decimal(n: nat) -> Seq<u8>
    decreases n,
{
    if n < 10 {
        seq![(48 + n) as u8]
    } else {
        decimal(n / 10).push((48 + n % 10) as u8)
    }
}

/// The number that a big-endian byte sequence denotes.
pub open spec fn be_value(s: Seq<u8>) -> nat
    decreases s.len(),
{
    if s.len() == 0 {
        0
    } else {
        be_value(s.drop_last()) * 256 + s.last() as nat
    }
}

/// The shortest big-endian encoding of `n`; `[0]` for zero.
pub open spec fn be_bytes(n: nat) -> Seq<u8>
    decreases n,
{
    if n < 256 {
        seq![n as u8]
    } else {
        be_bytes(n / 256).push((n % 256) as u8)
    }
}

/// A big-endian encoding with a non-zero leading byte denotes a positive
/// number.
pub proof fn lemma_be_value_positive(b: Seq<u8>)
    requires
        b.len() > 0,
        b[0] != 0,
    ensures
        be_value(b) > 0,
    decreases b.len(),
{
    if b.len() > 1 {
        assert(b.drop_last()[0] == b[0]);
        lemma_be_value_positive(b.drop_last());
    }
}

/// The shortest encoding of what an encoding with a non-zero leading byte
/// denotes is that encoding itself.
pub proof fn lemma_be_bytes_of_value(b: Seq<u8>)
    requires
        b.len() > 0,
        b[0] != 0,
    ensures
        be_bytes(be_value(b)) == b,
    decreases b.len(),
{
    let n = be_value(b);
    if b.len() == 1 {
        assert(b.drop_last() =~= Seq::<u8>::empty());
        assert(be_bytes(n) =~= b);
    } else {
        let prefix = b.drop_last();
        assert(prefix[0] == b[0]);
        lemma_be_value_positive(prefix);
        lemma_be_bytes_of_value(prefix);
        let v = be_value(prefix);
        assert(n == v * 256 + b.last() as nat);
        assert(n / 256 == v && n % 256 == b.last() as nat) by {
            vstd::arithmetic::div_mod::lemma_fundamental_div_mod_converse(
                n as int,
                256,
                v as int,
                b.last() as int,
            );
        }
        assert(be_bytes(n) =~= prefix.push(b.last()));
        assert(prefix.push(b.last()) =~= b);
    }
}

/// The SHA-256 digest of a byte sequence.
pub uninterp spec fn sha256(b: Seq<u8>) -> Seq<u8>;

/// The integer that the SHA-256 digest of `b` denotes, read big-endian.
pub open spec fn hash_value(b: Seq<u8>) -> nat {
    be_value(sha256(b))
}

/// Relies on `BigUint::to_str_radix` with radix 10: the decimal digits of a
/// non-negative integer.
#[verifier::external_body]
fn decimal_bytes(n: &BigNum) -> (r: Vec<u8>)
    requires
        n.value() >= 0,
    ensures
        r@ == decimal(n.value() as nat),
{
    BigUint::new(n.mag.clone()).to_str_radix(10).into_bytes()
}

/// Relies on `Sha256::digest`: the 32-byte SHA-256 digest of `b`.
#[verifier::external_body]
fn sha256_digest(b: &[u8]) -> (r: Vec<u8>)
    ensures
        r@ == sha256(b@),
        r@.len() == 32,
{
    Sha256::digest(b).to_vec()
}

/// Relies on `BigUint::from_bytes_be`: the big-endian reading of `b`.
#[verifier::external_body]
pub(crate) fn from_bytes_be(b: &[u8]) -> (r: BigNum)
    ensures
        r.value() == be_value(b@),
{
    BigNum { neg: false, mag: BigUint::from_bytes_be(b).to_u32_digits() }
}

/// Relies on `BigUint::to_bytes_be`: the shortest big-endian encoding of a
/// non-negative integer, which is `[0]` for zero.
#[verifier::external_body]
pub(crate) fn to_bytes_be(n: &BigNum) -> (r: Vec<u8>)
    requires
        n.value() >= 0,
    ensures
        r@ == be_bytes(n.value() as nat),
{
    BigUint::new(n.mag.clone()).to_bytes_be()
}

/// The bytes absorbed so far into a Fiat–Shamir transcript.
pub struct Transcript {
    pub bytes: Vec<u8>,
}

impl Transcript {
    pub fn new() -> (r: Transcript)
        ensures
            r.bytes@ == Seq::<u8>::empty(),
    {
        Transcript { bytes: Vec::new() }
    }

    /// Appends the decimal encoding of `n`.
    pub fn absorb(&mut self, n: &BigNum)
        requires
            n.value() >= 0,
        ensures
            final(self).bytes@ == old(self).bytes@ + decimal(n.value() as nat),
    {
        let mut d = decimal_bytes(n);
        self.bytes.append(&mut d);
    }

    /// The digest of everything absorbed, read big-endian and reduced
    /// modulo `m`.
    pub fn digest_mod(&self, m: &BigNum) -> (r: BigNum)
        requires
            m.value() > 0,
        ensures
            r.value() == (hash_value(self.bytes@) as int) % m.value(),
    {
        let d = sha256_digest(self.bytes.as_slice());
        let v = from_bytes_be(d.as_slice());
        crate::bignum::big_mod_floor(&v, m)
    }
}

} // verus!
