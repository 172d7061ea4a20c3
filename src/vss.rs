//! The scheme's public operations: group parameters, keys, verification of
//! a distribution and of a single share, and threshold reconstruction.

use vstd::arithmetic::div_mod::lemma_mul_mod_noop_left;
use vstd::arithmetic::power::pow;
use vstd::prelude::*;

use crate::bignum::{
    abs, big_div, big_eq, big_gcd, big_lt, big_mod_floor, big_modpow, big_mul, big_rem, big_sub,
    big_xor, gcd, limbs_value, nums, random_below, random_safe_prime, tdiv, trem, xor_nat, BigNum,
};
use crate::dleq::{challenge_of, recommit, statement_bytes, DLEQ};
use crate::sharebox::{DistributionShareBox, ShareBox};
use crate::transcript::{decimal, hash_value, Transcript};
use crate::util::{
    inverse, lagrange, lemma_lagrange_den_nonzero, lemma_lagrange_num_positive, lemma_trem_bounds,
    Util,
};

verus! {

/// The 2048-bit MODP group prime (group 14 of RFC 3526),
/// `2^2048 - 2^1984 - 1 + 2^64 * ([2^1918 pi] + 124476)`, as 32-bit limbs,
/// least significant first.
pub open spec fn modp_2048_limbs() -> Seq<u32> {
    seq![
        0xffffffffu32, 0xffffffff, 0x8aacaa68, 0x15728e5a, 0x98fa0510, 0x15d22618, 0xea956ae5,
        0x3995497c, 0x95581718, 0xde2bcbf6, 0x6f4c52c9, 0xb5c55df0, 0xec07a28f, 0x9b2783a2,
        0x180e8603, 0xe39e772c, 0x2e36ce3b, 0x32905e46, 0xca18217c, 0xf1746c08, 0x4abc9804,
        0x670c354e, 0x7096966d, 0x9ed52907, 0x208552bb, 0x1c62f356, 0xdca3ad96, 0x83655d23,
        0xfd24cf5f, 0x69163fa8, 0x1c55d39a, 0x98da4836, 0xa163bf05, 0xc2007cb8, 0xece45b3d,
        0x49286651, 0x7c4b1fe6, 0xae9f2411, 0x5a899fa5, 0xee386bfb, 0xf406b7ed, 0x0bff5cb6,
        0xa637ed6b, 0xf44c42e9, 0x625e7ec6, 0xe485b576, 0x6d51c245, 0x4fe1356d, 0xf25f1437,
        0x302b0a6d, 0xcd3a431b, 0xef9519b3, 0x8e3404dd, 0x514a0879, 0x3b139b22, 0x020bbea6,
        0x8a67cc74, 0x29024e08, 0x80dc1cd1, 0xc4c6628b, 0x2168c234, 0xc90fdaa2, 0xffffffff,
        0xffffffff,
    ]
}

/// Fermat's little theorem holds for every residue of `q`.
pub open spec fn fermat_modulus(q: int) -> bool {
    &&& q > 2
    &&& forall|x: int| 0 < x < q ==> #[trigger] pow(x, (q - 1) as nat) % q == 1
}

/// `prod_j C_j^(pos^j mod (q-1)) mod q`: the committed polynomial evaluated
/// in the exponent at `pos`.
pub open spec fn commitment_eval(cm: Seq<int>, pos: int, q: int) -> int
    decreases cm.len(),
{
    if cm.len() == 0 {
        1
    } else {
        (commitment_eval(cm.drop_last(), pos, q) * (pow(
            cm.last(),
            (pow(pos, (cm.len() - 1) as nat) % (q - 1)) as nat,
        ) % q)) % q
    }
}

/// Whether a share's proof holds against the encrypted share `y`: the
/// single-statement transcript over `(G, pk, S, y)` yields the box's
/// challenge.
pub open spec fn share_proof_holds(q: int, big_g: int, sb: ShareBox, y: int) -> bool {
    let pk = sb.publickey.value();
    let s = sb.share.value();
    let c = sb.challenge.value();
    let r = sb.response.value();
    &&& pk >= 0 && y >= 0 && c >= 0 && r >= 0
    &&& challenge_of(
        statement_bytes(pk, y, recommit(big_g, pk, r, c, q), recommit(s, y, r, c, q)),
        q,
    ) == c
}

/// The verifier's transcript over the first `n` listed public keys, or
/// `None` where a key lacks a position, response or share, or a response or
/// share is negative.
pub open spec fn distribution_bytes(q: int, g: int, d: DistributionShareBox, n: nat) -> Option<
    Seq<u8>,
>
    decreases n,
{
    if n == 0 {
        Some(Seq::empty())
    } else {
        match distribution_bytes(q, g, d, (n - 1) as nat) {
            None => None,
            Some(b) => {
                let pk = d.publickeys@[n - 1].value();
                match (d.position_at(pk), d.response_at(pk), d.share_at(pk)) {
                    (Some(p), Some(r), Some(y)) => {
                        let c = d.challenge.value();
                        let x = commitment_eval(nums(d.commitments@), p, q);
                        if r >= 0 && y >= 0 {
                            Some(
                                b + statement_bytes(
                                    x,
                                    y,
                                    recommit(g, x, r, c, q),
                                    recommit(pk, y, r, c, q),
                                ),
                            )
                        } else {
                            None
                        }
                    },
                    _ => None,
                }
            },
        }
    }
}

/// Whether a distribution box passes public verification.
pub open spec fn distribution_holds(q: int, g: int, d: DistributionShareBox) -> bool {
    d.challenge.value() >= 0 && match distribution_bytes(q, g, d, d.publickeys@.len()) {
        Some(b) => challenge_of(b, q) == d.challenge.value(),
        None => false,
    }
}

/// The index of the entry for position `p` in a position table.
pub open spec fn table_index(t: Seq<(i64, int)>, p: i64) -> Option<int>
    decreases t.len(),
{
    if t.len() == 0 {
        None
    } else if t.last().0 == p {
        Some(t.len() - 1)
    } else {
        table_index(t.drop_last(), p)
    }
}

/// The table position -> share that the boxes give, in order of first
/// appearance, a later box for a position replacing an earlier one; `None`
/// where a box's key has no position.
pub open spec fn share_table(d: DistributionShareBox, boxes: Seq<ShareBox>) -> Option<
    Seq<(i64, int)>,
>
    decreases boxes.len(),
{
    if boxes.len() == 0 {
        Some(Seq::empty())
    } else {
        match share_table(d, boxes.drop_last()) {
            None => None,
            Some(t) => match d.position_at(boxes.last().publickey.value()) {
                None => None,
                Some(p) => {
                    let s = boxes.last().share.value();
                    match table_index(t, p as i64) {
                        Some(k) => Some(t.update(k, (p as i64, s))),
                        None => Some(t.push((p as i64, s))),
                    }
                },
            },
        }
    }
}

/// The positions of a table, in its order.
pub open spec fn table_positions(t: Seq<(i64, int)>) -> Seq<i64> {
    t.map_values(|e: (i64, int)| e.0)
}

/// The exponent that a Lagrange coefficient `num / den` gives modulo
/// `q - 1`: the quotient when `den` divides `num`, otherwise the reduced
/// fraction's numerator times the inverse of its denominator; `None` when
/// that denominator has no inverse.
pub open spec fn lagrange_exponent(num: int, den: int, q: int) -> Option<int> {
    if trem(num, den) == 0 {
        Some(tdiv(num, abs(den)))
    } else {
        let g = gcd(num as nat, abs(den) as nat) as int;
        match inverse(abs(den) / g, q - 1) {
            Some(inv) => Some(((num / g) * inv) % (q - 1)),
            None => None,
        }
    }
}

/// The factor `S^e mod q` that a share at `pos` contributes, inverted
/// modulo `q` when the coefficient is negative (and left as it is if that
/// inverse does not exist); `None` when the share is unusable.
pub open spec fn factor(q: int, pos: i64, share: int, values: Seq<i64>) -> Option<int> {
    let (num, den) = lagrange(pos, values);
    match lagrange_exponent(num, den, q) {
        None => None,
        Some(e) => {
            let f = pow(share, e as nat) % q;
            if num * den < 0 {
                match inverse(f, q) {
                    Some(v) => Some(v),
                    None => Some(f),
                }
            } else {
                Some(f)
            }
        },
    }
}

/// The product modulo `q` of the usable factors of the first `n` entries.
pub open spec fn factor_product(q: int, t: Seq<(i64, int)>, values: Seq<i64>, n: nat) -> int
    decreases n,
{
    if n == 0 {
        1
    } else {
        let acc = factor_product(q, t, values, (n - 1) as nat);
        match factor(q, t[n - 1].0, t[n - 1].1, values) {
            Some(f) => (acc * f) % q,
            None => acc,
        }
    }
}

/// The mask `H(decimal(gamma)) mod q` over a group element.
pub open spec fn mask(gamma: int, q: int) -> int {
    (hash_value(decimal(gamma as nat)) as int) % q
}

/// What reconstruction yields: `None` with fewer boxes than commitments, a
/// box whose key has no position, or a negative masked secret; otherwise
/// the masked secret unmasked with the hash of the recombined element.
pub open spec fn reconstruction(q: int, boxes: Seq<ShareBox>, d: DistributionShareBox) -> Option<
    int,
> {
    if boxes.len() < d.commitments@.len() {
        None
    } else {
        match share_table(d, boxes) {
            None => None,
            Some(t) => if d.u.value() < 0 {
                None
            } else {
                let gamma = factor_product(q, t, table_positions(t), t.len());
                Some(xor_nat(mask(gamma, q) as nat, d.u.value() as nat) as int)
            },
        }
    }
}

/// The group: a safe prime `q`, the generator `g = (q - 1) / 2` of the
/// commitments, the generator `G` of the keys and shares, and the bit length
/// of fresh random scalars.
#[allow(non_snake_case)]
#[derive(Debug, Clone)]
pub struct VSS {
    pub q: BigNum,
    pub g: BigNum,
    pub G: BigNum,
    pub length: u32,
}

impl VSS {
    /// Parameters on which the operations are defined.
    pub open spec fn valid(&self) -> bool {
        self.q.value() > 2
    }

    /// The group the scheme is built on: a prime modulus (in Fermat's
    /// sense, which for `q >= 2` is primality) and both generators residues
    /// in `(0, q)`.
    pub open spec fn prime_group(&self) -> bool {
        &&& self.valid()
        &&& fermat_modulus(self.q.value())
        &&& 0 < self.g.value() < self.q.value()
        &&& 0 < self.G.value() < self.q.value()
    }

    /// The 2048-bit MODP group, with `G = 2`.
    pub fn new() -> (r: VSS)
        ensures
            r.q.value() == limbs_value(modp_2048_limbs()),
            r.g.value() == (r.q.value() - 1) / 2,
            r.G.value() == 2,
            r.length == 2048,
    {
        let mag = vec![
            0xffffffffu32, 0xffffffff, 0x8aacaa68, 0x15728e5a, 0x98fa0510, 0x15d22618, 0xea956ae5,
            0x3995497c, 0x95581718, 0xde2bcbf6, 0x6f4c52c9, 0xb5c55df0, 0xec07a28f, 0x9b2783a2,
            0x180e8603, 0xe39e772c, 0x2e36ce3b, 0x32905e46, 0xca18217c, 0xf1746c08, 0x4abc9804,
            0x670c354e, 0x7096966d, 0x9ed52907, 0x208552bb, 0x1c62f356, 0xdca3ad96, 0x83655d23,
            0xfd24cf5f, 0x69163fa8, 0x1c55d39a, 0x98da4836, 0xa163bf05, 0xc2007cb8, 0xece45b3d,
            0x49286651, 0x7c4b1fe6, 0xae9f2411, 0x5a899fa5, 0xee386bfb, 0xf406b7ed, 0x0bff5cb6,
            0xa637ed6b, 0xf44c42e9, 0x625e7ec6, 0xe485b576, 0x6d51c245, 0x4fe1356d, 0xf25f1437,
            0x302b0a6d, 0xcd3a431b, 0xef9519b3, 0x8e3404dd, 0x514a0879, 0x3b139b22, 0x020bbea6,
            0x8a67cc74, 0x29024e08, 0x80dc1cd1, 0xc4c6628b, 0x2168c234, 0xc90fdaa2, 0xffffffff,
            0xffffffff,
        ];
        assert(mag@ =~= modp_2048_limbs());
        let q = BigNum { neg: false, mag };
        let q1 = big_sub(&q, &BigNum::from_i64(1));
        let g = big_div(&q1, &BigNum::from_i64(2));
        VSS { q, g, G: BigNum::from_i64(2), length: 2048 }
    }

    /// A freshly drawn safe prime of `length` bits (at least 32), with
    /// `G = 2`.
    pub fn init(length: u32) -> (r: VSS)
        requires
            length >= 32,
        ensures
            r.valid(),
            r.q.value() < pow(2, length as nat),
            r.q.value() % 4 == 3,
            r.g.value() == (r.q.value() - 1) / 2,
            r.G.value() == 2,
            r.length == length,
    {
        let q = random_safe_prime(length as usize);
        let q1 = big_sub(&q, &BigNum::from_i64(1));
        let g = big_div(&q1, &BigNum::from_i64(2));
        proof {
            lemma_trem_bounds(q1.value(), 2);
        }
        VSS { q, g, G: BigNum::from_i64(2), length }
    }

    /// A private key: a value in `[0, q)` coprime to `q - 1`, drawn
    /// uniformly. Should `2^64 - 1` draws all fail, which does not happen in
    /// practice, the key `1` is returned.
    pub fn generate_private_key(&self) -> (r: BigNum)
        requires
            self.q.value() > 1,
        ensures
            0 <= r.value() < self.q.value(),
            gcd(r.value() as nat, (self.q.value() - 1) as nat) == 1,
    {
        let one = BigNum::from_i64(1);
        let q1 = big_sub(&self.q, &one);
        let mut tries: u64 = 0;
        while tries < u64::MAX
            invariant
                self.q.value() > 1,
                q1.value() == self.q.value() - 1,
                one.value() == 1,
            decreases u64::MAX - tries,
        {
            let candidate = random_below(&self.q);
            if big_eq(&big_gcd(&candidate, &q1), &one) {
                return candidate;
            }
            tries += 1;
        }
        assert(gcd(1, (self.q.value() - 1) as nat) == 1) by {
            lemma_gcd_one((self.q.value() - 1) as nat);
        }
        one
    }

    /// `G^private_key mod q`.
    pub fn generate_public_key(&self, private_key: &BigNum) -> (r: BigNum)
        requires
            private_key.value() >= 0,
            self.q.value() > 0,
        ensures
            r.value() == pow(self.G.value(), private_key.value() as nat) % self.q.value(),
    {
        big_modpow(&self.G, private_key, &self.q)
    }
}

impl VSS {
    /// The committed polynomial evaluated in the exponent at `position`:
    /// the running product and the running exponent `position^j` are both
    /// reduced at each step.
    pub(crate) fn evaluate_commitments(&self, commitments: &Vec<BigNum>, position: i64) -> (r:
        BigNum)
        requires
            self.valid(),
        ensures
            r.value() == commitment_eval(nums(commitments@), position as int, self.q.value()),
            0 <= r.value(),
    {
        let ghost cm = nums(commitments@);
        let ghost q = self.q.value();
        let ghost pos = position as int;
        let one = BigNum::from_i64(1);
        let q1 = big_sub(&self.q, &one);
        let bpos = BigNum::from_i64(position);
        let mut x = BigNum::from_i64(1);
        let mut exponent = BigNum::from_i64(1);
        proof {
            reveal(pow);
            vstd::arithmetic::div_mod::lemma_small_mod(1, (q - 1) as nat);
            assert(cm.subrange(0, 0) =~= Seq::<int>::empty());
        }
        let mut j: usize = 0;
        while j < commitments.len()
            invariant
                self.valid(),
                q == self.q.value(),
                cm == nums(commitments@),
                q1.value() == q - 1,
                bpos.value() == pos,
                j <= commitments@.len(),
                x.value() == commitment_eval(cm.subrange(0, j as int), pos, q),
                0 <= x.value(),
                exponent.value() == pow(pos, j as nat) % (q - 1),
            decreases commitments@.len() - j,
        {
            let term = big_modpow(&commitments[j], &exponent, &self.q);
            x = big_mod_floor(&big_mul(&x, &term), &self.q);
            exponent = big_mod_floor(&big_mul(&exponent, &bpos), &q1);
            proof {
                let sub = cm.subrange(0, j as int + 1);
                assert(sub.drop_last() =~= cm.subrange(0, j as int));
                assert(sub.last() == commitments@[j as int].value());
                lemma_mul_mod_noop_left(pow(pos, j as nat), pos, q - 1);
                assert(pow(pos, (j + 1) as nat) == pos * pow(pos, j as nat)) by {
                    reveal(pow);
                }
            }
            j += 1;
        }
        assert(cm.subrange(0, cm.len() as int) =~= cm);
        x
    }

    /// Whether a share's proof holds against the encrypted share it was
    /// decrypted from.
    pub fn verify(&self, sharebox: &ShareBox, encrypted_share: &BigNum) -> (r: bool)
        requires
            self.valid(),
        ensures
            r == share_proof_holds(self.q.value(), self.G.value(), *sharebox, encrypted_share.value()),
    {
        let zero = BigNum::zero();
        if big_lt(&sharebox.publickey, &zero) || big_lt(encrypted_share, &zero) || big_lt(
            &sharebox.challenge,
            &zero,
        ) || big_lt(&sharebox.response, &zero) {
            return false;
        }
        let mut dleq = DLEQ::new();
        let mut transcript = Transcript::new();
        dleq.g1 = self.G.dup();
        dleq.h1 = sharebox.publickey.dup();
        dleq.g2 = sharebox.share.dup();
        dleq.h2 = encrypted_share.dup();
        dleq.r = Some(sharebox.response.dup());
        dleq.c = Some(sharebox.challenge.dup());
        dleq.q = self.q.dup();
        dleq.update_hash(&mut transcript);
        assert(transcript.bytes@ =~= Seq::<u8>::empty() + transcript.bytes@);
        dleq.check(&transcript)
    }

    /// Whether `sharebox` is a correctly decrypted share of the encrypted
    /// share that the distribution box holds for `publickey`; false when it
    /// holds none.
    pub fn verify_share(
        &self,
        sharebox: &ShareBox,
        distribution_sharebox: &DistributionShareBox,
        publickey: &BigNum,
    ) -> (r: bool)
        requires
            self.valid(),
        ensures
            r == match distribution_sharebox.share_at(publickey.value()) {
                Some(y) => share_proof_holds(self.q.value(), self.G.value(), *sharebox, y),
                None => false,
            },
    {
        match distribution_sharebox.share_of(publickey) {
            None => false,
            Some(y) => self.verify(sharebox, &y),
        }
    }

    /// Replays the dealer's transcript over every listed public key and
    /// compares its challenge with the one the box carries.
    pub fn verify_distribution_shares(&self, distribution_sharebox: &DistributionShareBox) -> (r:
        bool)
        requires
            self.valid(),
        ensures
            r == distribution_holds(self.q.value(), self.g.value(), *distribution_sharebox),
    {
        let d = distribution_sharebox;
        let ghost q = self.q.value();
        let ghost g = self.g.value();
        let zero = BigNum::zero();
        if big_lt(&d.challenge, &zero) {
            return false;
        }
        let mut transcript = Transcript::new();
        let mut k: usize = 0;
        while k < d.publickeys.len()
            invariant
                self.valid(),
                q == self.q.value(),
                g == self.g.value(),
                d == distribution_sharebox,
                zero.value() == 0,
                d.challenge.value() >= 0,
                k <= d.publickeys@.len(),
                distribution_bytes(q, g, *d, k as nat) == Some(transcript.bytes@),
            decreases d.publickeys@.len() - k,
        {
            let publickey = &d.publickeys[k];
            let position = d.position_of(publickey);
            let response = d.response_of(publickey);
            let encrypted_share = d.share_of(publickey);
            if position.is_none() || response.is_none() || encrypted_share.is_none() {
                proof {
                    assert(distribution_bytes(q, g, *d, (k + 1) as nat) is None);
                    lemma_distribution_bytes_stays_none(q, g, *d, (k + 1) as nat, d.publickeys@.len());
                }
                return false;
            }
            let position = position.unwrap();
            let response = response.unwrap();
            let encrypted_share = encrypted_share.unwrap();
            if big_lt(&response, &zero) || big_lt(&encrypted_share, &zero) {
                proof {
                    assert(distribution_bytes(q, g, *d, (k + 1) as nat) is None);
                    lemma_distribution_bytes_stays_none(q, g, *d, (k + 1) as nat, d.publickeys@.len());
                }
                return false;
            }
            let x = self.evaluate_commitments(&d.commitments, position);
            let mut dleq = DLEQ::new();
            dleq.g1 = self.g.dup();
            dleq.h1 = x;
            dleq.g2 = publickey.dup();
            dleq.h2 = encrypted_share;
            dleq.r = Some(response);
            dleq.c = Some(d.challenge.dup());
            dleq.q = self.q.dup();
            dleq.update_hash(&mut transcript);
            k += 1;
        }
        let mut dleq = DLEQ::new();
        dleq.c = Some(d.challenge.dup());
        dleq.q = self.q.dup();
        dleq.check(&transcript)
    }
}

/// A position table with its shares as values.
pub open spec fn table_view(t: Seq<(i64, BigNum)>) -> Seq<(i64, int)> {
    t.map_values(|e: (i64, BigNum)| (e.0, e.1.value()))
}

fn find_position(table: &Vec<(i64, BigNum)>, position: i64) -> (r: Option<usize>)
    ensures
        r matches Some(k) ==> table_index(table_view(table@), position) == Some(k as int)
            && k < table@.len(),
        r is None ==> table_index(table_view(table@), position) is None,
{
    let mut k: usize = table.len();
    assert(table_view(table@).subrange(0, k as int) =~= table_view(table@));
    while k > 0
        invariant
            k <= table@.len(),
            table_index(table_view(table@), position) == table_index(
                table_view(table@).subrange(0, k as int),
                position,
            ),
        decreases k,
    {
        let ghost ts = table_view(table@).subrange(0, k as int);
        assert(ts.drop_last() =~= table_view(table@).subrange(0, k - 1));
        if table[k - 1].0 == position {
            return Some(k - 1);
        }
        k -= 1;
    }
    assert(table_view(table@).subrange(0, 0) =~= Seq::<(i64, int)>::empty());
    None
}

/// A positive argument makes the greatest common divisor positive.
pub proof fn lemma_gcd_positive(a: nat, b: nat)
    requires
        a > 0,
    ensures
        gcd(a, b) > 0,
    decreases b,
{
    if b > 0 {
        lemma_gcd_positive(b, a % b);
    }
}

/// Once a box's key has no position, the table stays absent.
pub proof fn lemma_share_table_stays_none(
    d: DistributionShareBox,
    boxes: Seq<ShareBox>,
    n: int,
)
    requires
        0 <= n <= boxes.len(),
        share_table(d, boxes.subrange(0, n)) is None,
    ensures
        share_table(d, boxes) is None,
    decreases boxes.len() - n,
{
    if n < boxes.len() {
        let next = boxes.subrange(0, n + 1);
        assert(next.drop_last() =~= boxes.subrange(0, n));
        lemma_share_table_stays_none(d, boxes, n + 1);
    } else {
        assert(boxes.subrange(0, n) =~= boxes);
    }
}

impl VSS {
    /// The factor that the share at `position` contributes to the
    /// recombined element; `None` when its Lagrange denominator has no
    /// inverse modulo `q - 1`, so that the share cannot be used.
    pub fn compute_factor(&self, position: i64, share: &BigNum, values: &[i64]) -> (r: Option<
        BigNum,
    >)
        requires
            self.valid(),
            values@.contains(position),
        ensures
            r matches Some(f) ==> factor(self.q.value(), position, share.value(), values@) == Some(
                f.value(),
            ),
            r is None ==> factor(self.q.value(), position, share.value(), values@) is None,
    {
        let ghost q = self.q.value();
        let (num, den) = Util::lagrange_coefficient(&position, values);
        proof {
            lemma_lagrange_den_nonzero(position as int, values@, crate::util::seq_max(values@));
            lemma_lagrange_num_positive(position as int, values@, crate::util::seq_max(values@));
        }
        let zero = BigNum::zero();
        let one = BigNum::from_i64(1);
        let q1 = big_sub(&self.q, &one);
        let exponent;
        if big_eq(&big_rem(&num, &den), &zero) {
            let abs_den = Util::abs(&den);
            exponent = big_div(&num, &abs_den);
            proof {
                lemma_trem_bounds(num.value(), abs_den.value());
            }
        } else {
            let denominator = Util::abs(&den);
            let g = big_gcd(&num, &denominator);
            proof {
                lemma_gcd_positive(num.value() as nat, denominator.value() as nat);
            }
            let numerator = big_div(&num, &g);
            let denominator = big_div(&denominator, &g);
            proof {
                lemma_trem_bounds(num.value(), g.value());
                lemma_trem_bounds(abs(den.value()), g.value());
            }
            match Util::mod_inverse(&denominator, &q1) {
                Some(inverse_denominator) => {
                    exponent = big_mod_floor(&big_mul(&numerator, &inverse_denominator), &q1);
                },
                None => {
                    return None;
                },
            }
        }
        let mut f = big_modpow(share, &exponent, &self.q);
        if big_lt(&big_mul(&num, &den), &zero) {
            if let Some(inverse_factor) = Util::mod_inverse(&f, &self.q) {
                f = inverse_factor;
            }
        }
        Some(f)
    }

    /// Recovers the secret from the boxes: each box's key gives its
    /// position, the shares are recombined in the exponent with Lagrange
    /// coefficients, and the hash of the result unmasks `u`. `None` with
    /// fewer boxes than commitments or a key that has no position.
    pub fn reconstruct(&self, share_boxes: &[ShareBox], distribution_sharebox: &DistributionShareBox)
        -> (r: Option<BigNum>)
        requires
            self.valid(),
        ensures
            r matches Some(v) ==> reconstruction(
                self.q.value(),
                share_boxes@,
                *distribution_sharebox,
            ) == Some(v.value()),
            r is None ==> reconstruction(self.q.value(), share_boxes@, *distribution_sharebox) is None,
    {
        let d = distribution_sharebox;
        let ghost q = self.q.value();
        let ghost boxes = share_boxes@;
        if share_boxes.len() < d.commitments.len() {
            return None;
        }
        let mut table: Vec<(i64, BigNum)> = Vec::new();
        let mut k: usize = 0;
        assert(boxes.subrange(0, 0) =~= Seq::<ShareBox>::empty());
        while k < share_boxes.len()
            invariant
                d == distribution_sharebox,
                boxes == share_boxes@,
                k <= boxes.len(),
                share_table(*d, boxes.subrange(0, k as int)) == Some(table_view(table@)),
            decreases boxes.len() - k,
        {
            let ghost prev = table_view(table@);
            let ghost sub = boxes.subrange(0, k as int + 1);
            assert(sub.drop_last() =~= boxes.subrange(0, k as int));
            assert(sub.last() == boxes[k as int]);
            let sb = &share_boxes[k];
            match d.position_of(&sb.publickey) {
                None => {
                    proof {
                        lemma_share_table_stays_none(*d, boxes, k + 1);
                    }
                    return None;
                },
                Some(position) => {
                    match find_position(&table, position) {
                        Some(idx) => {
                            table.set(idx, (position, sb.share.dup()));
                            assert(table_view(table@) =~= prev.update(
                                idx as int,
                                (position, sb.share.value()),
                            ));
                        },
                        None => {
                            table.push((position, sb.share.dup()));
                            assert(table_view(table@) =~= prev.push((position, sb.share.value())));
                        },
                    }
                },
            }
            k += 1;
        }
        assert(boxes.subrange(0, boxes.len() as int) =~= boxes);
        let zero = BigNum::zero();
        if big_lt(&d.u, &zero) {
            return None;
        }
        let ghost tv = table_view(table@);
        let mut values: Vec<i64> = Vec::new();
        let mut k: usize = 0;
        while k < table.len()
            invariant
                tv == table_view(table@),
                k <= table@.len(),
                values@ == table_positions(tv).subrange(0, k as int),
            decreases table@.len() - k,
        {
            values.push(table[k].0);
            k += 1;
            assert(values@ =~= table_positions(tv).subrange(0, k as int));
        }
        assert(values@ =~= table_positions(tv));
        let mut secret = BigNum::from_i64(1);
        let mut k: usize = 0;
        while k < table.len()
            invariant
                self.valid(),
                q == self.q.value(),
                tv == table_view(table@),
                values@ == table_positions(tv),
                k <= table@.len(),
                secret.value() == factor_product(q, tv, values@, k as nat),
                secret.value() >= 0,
            decreases table@.len() - k,
        {
            assert(values@[k as int] == table[k as int].0);
            match self.compute_factor(table[k].0, &table[k].1, values.as_slice()) {
                Some(f) => {
                    secret = big_mod_floor(&big_mul(&secret, &f), &self.q);
                },
                None => {},
            }
            k += 1;
        }
        let mut transcript = Transcript::new();
        transcript.absorb(&secret);
        assert(transcript.bytes@ =~= decimal(secret.value() as nat));
        let hash = transcript.digest_mod(&self.q);
        Some(big_xor(&hash, &d.u))
    }
}

/// Once a key fails, the verifier's transcript stays absent.
pub proof fn lemma_distribution_bytes_stays_none(
    q: int,
    g: int,
    d: DistributionShareBox,
    n: nat,
    m: nat,
)
    requires
        n <= m,
        distribution_bytes(q, g, d, n) is None,
    ensures
        distribution_bytes(q, g, d, m) is None,
    decreases m - n,
{
    if n < m {
        lemma_distribution_bytes_stays_none(q, g, d, n, (m - 1) as nat);
    }
}

/// `gcd(1, n) == 1`.
pub proof fn lemma_gcd_one(n: nat)
    ensures
        gcd(1, n) == 1,
{
    if n != 0 {
        if n == 1 {
            assert(gcd(1, 0) == 1);
        } else {
            vstd::arithmetic::div_mod::lemma_small_mod(1, n);
            assert(gcd(1, n) == gcd(n, 1));
            assert(gcd(n, 1) == gcd(1, n % 1));
            assert(n % 1 == 0);
            assert(gcd(1, 0) == 1);
        }
    }
}

} // verus!
