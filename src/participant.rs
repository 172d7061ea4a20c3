//! A participant of the scheme: the dealer's distribution of a secret, a
//! recipient's extraction of its share, and the public checks.

use vstd::arithmetic::power::pow;
use vstd::prelude::*;

use crate::bignum::{
    big_lt, big_mod_floor, big_modpow, big_sub, big_xor, nums, random_below, random_bits,
    xor_nat, BigNum,
};
use crate::dleq::{challenge_of, commit, respond, statement_bytes, DLEQ};
use crate::polynomial::{poly_eval, Polynomial};
use crate::sharebox::{DistributionShareBox, ShareBox};
use crate::transcript::Transcript;
use crate::util::{inverse, Util};
use crate::vss::{commitment_eval, mask, VSS};

verus! {

/// The share of the recipient at `pos`: `p(pos) mod (q - 1)`.
pub open spec fn share_value(coeffs: Seq<int>, pos: int, q: int) -> int {
    poly_eval(coeffs, pos) % (q - 1)
}

/// The commitments `g^a_j mod q` to the first `t` coefficients.
pub open spec fn commitments_of(g: int, coeffs: Seq<int>, q: int, t: nat) -> Seq<int> {
    Seq::new(t, |j: int| pow(g, coeffs[j] as nat) % q)
}

/// The encrypted share of recipient `i` (at position `i + 1`).
pub open spec fn encrypted_share(q: int, coeffs: Seq<int>, pks: Seq<int>, i: int) -> int {
    pow(pks[i], share_value(coeffs, i + 1, q) as nat) % q
}

/// What the dealer's statement for recipient `i` adds to the transcript.
pub open spec fn dealer_statement(
    q: int,
    g: int,
    cm: Seq<int>,
    coeffs: Seq<int>,
    pks: Seq<int>,
    w: int,
    i: int,
) -> Seq<u8> {
    statement_bytes(
        commitment_eval(cm, i + 1, q),
        encrypted_share(q, coeffs, pks, i),
        commit(g, w, q),
        commit(pks[i], w, q),
    )
}

/// The dealer's transcript over the first `n` recipients.
pub open spec fn dealer_bytes(
    q: int,
    g: int,
    cm: Seq<int>,
    coeffs: Seq<int>,
    pks: Seq<int>,
    w: int,
    n: nat,
) -> Seq<u8>
    decreases n,
{
    if n == 0 {
        Seq::empty()
    } else {
        dealer_bytes(q, g, cm, coeffs, pks, w, (n - 1) as nat) + dealer_statement(
            q,
            g,
            cm,
            coeffs,
            pks,
            w,
            n - 1,
        )
    }
}

/// The masked secret `secret XOR H(G^(p(0) mod (q-1)) mod q)`.
pub open spec fn masked_secret(q: int, big_g: int, coeffs: Seq<int>, secret: int) -> int {
    let gamma = pow(big_g, (poly_eval(coeffs, 0) % (q - 1)) as nat) % q;
    xor_nat(secret as nat, mask(gamma, q) as nat) as int
}

/// `d` is the box that the dealer with group `vss` produces for `secret`,
/// the recipients `pks` (positions `1..=N` in this order), threshold `t`,
/// polynomial coefficients `coeffs` and witness `w`.
pub open spec fn is_distribution(
    vss: VSS,
    secret: int,
    pks: Seq<int>,
    t: nat,
    coeffs: Seq<int>,
    w: int,
    d: DistributionShareBox,
) -> bool {
    let q = vss.q.value();
    let g = vss.g.value();
    let n = pks.len();
    let cm = commitments_of(g, coeffs, q, t);
    let c = challenge_of(dealer_bytes(q, g, cm, coeffs, pks, w, n), q);
    &&& nums(d.commitments@) == cm
    &&& nums(d.publickeys@) == pks
    &&& d.positions@.len() == n && d.shares@.len() == n && d.responses@.len() == n
    &&& forall|i: int|
        0 <= i < n ==> {
            &&& (#[trigger] d.positions@[i]).0.value() == pks[i]
            &&& d.positions@[i].1 == i + 1
            &&& d.shares@[i].0.value() == pks[i]
            &&& d.shares@[i].1.value() == encrypted_share(q, coeffs, pks, i)
            &&& d.responses@[i].0.value() == pks[i]
            &&& d.responses@[i].1.value() == respond(w, share_value(coeffs, i + 1, q), c, q)
        }
    &&& d.challenge.value() == c
    &&& d.u.value() == masked_secret(q, vss.G.value(), coeffs, secret)
}

/// A dealt box has the shape that `wf` describes.
pub proof fn lemma_distribution_wf(
    vss: VSS,
    secret: int,
    pks: Seq<int>,
    t: nat,
    coeffs: Seq<int>,
    w: int,
    d: DistributionShareBox,
)
    requires
        is_distribution(vss, secret, pks, t, coeffs, w, d),
        1 <= t <= pks.len(),
    ensures
        d.wf(),
{
    assert(crate::sharebox::key_values(d.positions@) =~= nums(d.publickeys@));
    assert(crate::sharebox::key_values(d.shares@) =~= nums(d.publickeys@));
    assert(crate::sharebox::key_values(d.responses@) =~= nums(d.publickeys@));
    assert(nums(d.commitments@).len() == d.commitments@.len());
    assert(nums(d.publickeys@).len() == d.publickeys@.len());
}

/// The box that the holder of `sk` extracts from an encrypted share `y`
/// with witness `w`: `(pk, S, c, r)` with `S = y^(sk^-1 mod (q-1)) mod q`;
/// `None` when `sk` has no inverse modulo `q - 1`.
pub open spec fn extraction(q: int, big_g: int, y: int, sk: int, w: int) -> Option<
    (int, int, int, int),
> {
    let pk = pow(big_g, sk as nat) % q;
    match inverse(sk, q - 1) {
        None => None,
        Some(d) => {
            let s = pow(y, d as nat) % q;
            let c = challenge_of(statement_bytes(pk, y, commit(big_g, w, q), commit(s, w, q)), q);
            Some((pk, s, c, respond(w, sk, c, q)))
        },
    }
}

/// What extraction yields from a distribution box: `None` when the box holds
/// no encrypted share for the key of `sk`, that share is negative, or `sk`
/// has no inverse modulo `q - 1`.
pub open spec fn extraction_from(
    q: int,
    big_g: int,
    d: DistributionShareBox,
    sk: int,
    w: int,
) -> Option<(int, int, int, int)> {
    match d.share_at(pow(big_g, sk as nat) % q) {
        None => None,
        Some(y) => if y < 0 {
            None
        } else {
            extraction(q, big_g, y, sk, w)
        },
    }
}

/// The numbers of a share box.
pub open spec fn sharebox_values(sb: ShareBox) -> (int, int, int, int) {
    (sb.publickey.value(), sb.share.value(), sb.challenge.value(), sb.response.value())
}

/// A participant: the group and its own key pair.
#[derive(Debug, Clone)]
pub struct Participant {
    pub vss: VSS,
    pub privatekey: BigNum,
    pub publickey: BigNum,
}

impl Participant {
    /// A participant over the 2048-bit MODP group with zero keys.
    pub fn new() -> (r: Participant)
        ensures
            r.vss.q.value() == crate::bignum::limbs_value(crate::vss::modp_2048_limbs()),
            r.vss.g.value() == (r.vss.q.value() - 1) / 2,
            r.vss.G.value() == 2,
            r.vss.length == 2048,
            r.privatekey.value() == 0 && r.publickey.value() == 0,
    {
        Participant { vss: VSS::new(), privatekey: BigNum::zero(), publickey: BigNum::zero() }
    }

    /// Draws a fresh key pair.
    pub fn initialize(&mut self)
        requires
            old(self).vss.q.value() > 1,
        ensures
            final(self).vss == old(self).vss,
            0 <= final(self).privatekey.value() < final(self).vss.q.value(),
            crate::bignum::gcd(
                final(self).privatekey.value() as nat,
                (final(self).vss.q.value() - 1) as nat,
            ) == 1,
            final(self).publickey.value() == pow(
                final(self).vss.G.value(),
                final(self).privatekey.value() as nat,
            ) % final(self).vss.q.value(),
    {
        self.privatekey = self.vss.generate_private_key();
        self.publickey = self.vss.generate_public_key(&self.privatekey);
    }

    /// Deals `secret` to `publickeys` (positions `1..=N` in this order) with
    /// threshold `threshold`, the given polynomial and witness `w`.
    pub fn distribute(
        &mut self,
        secret: &BigNum,
        publickeys: &[BigNum],
        threshold: u32,
        polynomial: &Polynomial,
        w: &BigNum,
    ) -> (r: DistributionShareBox)
        requires
            old(self).vss.valid(),
            1 <= threshold <= publickeys@.len() < i64::MAX,
            polynomial.coefficients@.len() >= threshold,
            forall|j: int| 0 <= j < threshold ==> #[trigger] polynomial.coeffs()[j] >= 0,
            secret.value() >= 0,
            w.value() >= 0,
        ensures
            *final(self) == *old(self),
            r.wf(),
            is_distribution(
                final(self).vss,
                secret.value(),
                nums(publickeys@),
                threshold as nat,
                polynomial.coeffs(),
                w.value(),
                r,
            ),
    {
        let vss = &self.vss;
        let ghost q = vss.q.value();
        let ghost g = vss.g.value();
        let ghost coeffs = polynomial.coeffs();
        let ghost pks = nums(publickeys@);
        let ghost n = publickeys@.len();
        let ghost cm = commitments_of(g, coeffs, q, threshold as nat);
        let one = BigNum::from_i64(1);
        let q1 = big_sub(&vss.q, &one);
        let mut commitments: Vec<BigNum> = Vec::new();
        let mut j: usize = 0;
        while j < threshold as usize
            invariant
                vss.valid(),
                q == vss.q.value() && g == vss.g.value(),
                coeffs == polynomial.coeffs(),
                cm == commitments_of(g, coeffs, q, threshold as nat),
                polynomial.coefficients@.len() >= threshold,
                forall|t: int| 0 <= t < threshold ==> #[trigger] coeffs[t] >= 0,
                j <= threshold,
                commitments@.len() == j,
                forall|t: int| 0 <= t < j ==> #[trigger] commitments@[t].value() == cm[t],
            decreases threshold - j,
        {
            assert(coeffs[j as int] == polynomial.coefficients@[j as int].value());
            commitments.push(big_modpow(&vss.g, &polynomial.coefficients[j], &vss.q));
            j += 1;
        }
        assert(nums(commitments@) =~= cm);
        let mut positions: Vec<(BigNum, i64)> = Vec::new();
        let mut shares: Vec<(BigNum, BigNum)> = Vec::new();
        let mut secret_shares: Vec<BigNum> = Vec::new();
        let mut transcript = Transcript::new();
        let mut i: usize = 0;
        while i < publickeys.len()
            invariant
                vss.valid(),
                q == vss.q.value() && g == vss.g.value(),
                q1.value() == q - 1,
                coeffs == polynomial.coeffs(),
                polynomial.coefficients@.len() >= threshold >= 1,
                pks == nums(publickeys@),
                n == publickeys@.len(),
                n < i64::MAX,
                cm == nums(commitments@),
                w.value() >= 0,
                i <= n,
                transcript.bytes@ == dealer_bytes(q, g, cm, coeffs, pks, w.value(), i as nat),
                positions@.len() == i && shares@.len() == i && secret_shares@.len() == i,
                forall|t: int|
                    0 <= t < i ==> {
                        &&& (#[trigger] positions@[t]).0.value() == pks[t]
                        &&& positions@[t].1 == t + 1
                        &&& shares@[t].0.value() == pks[t]
                        &&& shares@[t].1.value() == encrypted_share(q, coeffs, pks, t)
                    },
                forall|t: int|
                    0 <= t < i ==> #[trigger] secret_shares@[t].value() == share_value(
                        coeffs,
                        t + 1,
                        q,
                    ),
            decreases n - i,
        {
            let position = (i + 1) as i64;
            let publickey = &publickeys[i];
            let value = polynomial.get_value(&BigNum::from_i64(position));
            let secret_share = big_mod_floor(&value, &q1);
            let x = vss.evaluate_commitments(&commitments, position);
            let encrypted = big_modpow(publickey, &secret_share, &vss.q);
            let mut dleq = DLEQ::new();
            dleq.init2(
                vss.g.dup(),
                x.dup(),
                publickey.dup(),
                encrypted.dup(),
                vss.q.dup(),
                secret_share.dup(),
                w.dup(),
            );
            let a1 = dleq.get_a1();
            let a2 = dleq.get_a2();
            let ghost before = transcript.bytes@;
            transcript.absorb(&x);
            transcript.absorb(&encrypted);
            transcript.absorb(&a1);
            transcript.absorb(&a2);
            proof {
                assert(pks[i as int] == publickey.value());
                assert(transcript.bytes@ =~= before + dealer_statement(
                    q,
                    g,
                    cm,
                    coeffs,
                    pks,
                    w.value(),
                    i as int,
                ));
            }
            positions.push((publickey.dup(), position));
            shares.push((publickey.dup(), encrypted));
            secret_shares.push(secret_share);
            i += 1;
        }
        let challenge = transcript.digest_mod(&q1);
        let ghost c = challenge.value();
        let mut responses: Vec<(BigNum, BigNum)> = Vec::new();
        let mut i: usize = 0;
        while i < publickeys.len()
            invariant
                vss.valid(),
                q == vss.q.value() && g == vss.g.value(),
                coeffs == polynomial.coeffs(),
                pks == nums(publickeys@),
                n == publickeys@.len(),
                c == challenge.value(),
                secret_shares@.len() == n,
                forall|t: int|
                    0 <= t < n ==> #[trigger] secret_shares@[t].value() == share_value(
                        coeffs,
                        t + 1,
                        q,
                    ),
                i <= n,
                responses@.len() == i,
                forall|t: int|
                    0 <= t < i ==> {
                        &&& (#[trigger] responses@[t]).0.value() == pks[t]
                        &&& responses@[t].1.value() == respond(
                            w.value(),
                            share_value(coeffs, t + 1, q),
                            c,
                            q,
                        )
                    },
            decreases n - i,
        {
            let publickey = &publickeys[i];
            let mut dleq = DLEQ::new();
            dleq.init2(
                vss.g.dup(),
                BigNum::zero(),
                publickey.dup(),
                BigNum::zero(),
                vss.q.dup(),
                secret_shares[i].dup(),
                w.dup(),
            );
            dleq.c = Some(challenge.dup());
            let response = dleq.get_r().unwrap();
            assert(pks[i as int] == publickey.value());
            responses.push((publickey.dup(), response));
            i += 1;
        }
        let zero_point = polynomial.get_value(&BigNum::zero());
        let shared_value = big_modpow(&vss.G, &big_mod_floor(&zero_point, &q1), &vss.q);
        let mut mask_transcript = Transcript::new();
        mask_transcript.absorb(&shared_value);
        assert(mask_transcript.bytes@ =~= crate::transcript::decimal(
            shared_value.value() as nat,
        ));
        let hash = mask_transcript.digest_mod(&vss.q);
        let u = big_xor(secret, &hash);
        let mut shares_box = DistributionShareBox::new();
        shares_box.init(
            commitments.as_slice(),
            positions,
            shares,
            publickeys,
            &challenge,
            responses,
            &u,
        );
        proof {
            assert(is_distribution(
                self.vss,
                secret.value(),
                pks,
                threshold as nat,
                coeffs,
                w.value(),
                shares_box,
            ));
            lemma_distribution_wf(
                self.vss,
                secret.value(),
                pks,
                threshold as nat,
                coeffs,
                w.value(),
                shares_box,
            );
        }
        shares_box
    }
}

impl Participant {
    /// Deals `secret` to `publickeys` with threshold `threshold`, over a
    /// freshly drawn polynomial of degree `threshold - 1` and witness.
    pub fn distribute_secret(&mut self, secret: &BigNum, publickeys: &[BigNum], threshold: u32) -> (r:
        DistributionShareBox)
        requires
            old(self).vss.valid(),
            1 <= threshold <= publickeys@.len() < i64::MAX,
            threshold <= i32::MAX,
            secret.value() >= 0,
        ensures
            *final(self) == *old(self),
            r.wf(),
            exists|coeffs: Seq<int>, w: int|
                {
                    &&& coeffs.len() == threshold
                    &&& forall|j: int|
                        0 <= j < threshold ==> 0 <= #[trigger] coeffs[j] < final(self).vss.q.value()
                    &&& 0 <= w < final(self).vss.q.value()
                    &&& is_distribution(
                        final(self).vss,
                        secret.value(),
                        nums(publickeys@),
                        threshold as nat,
                        coeffs,
                        w,
                        r,
                    )
                },
    {
        let mut polynomial = Polynomial::new();
        polynomial.init((threshold - 1) as i32, &self.vss.q);
        assert(polynomial.coefficients@.len() == polynomial.coeffs().len());
        let w = random_below(&self.vss.q);
        let r = self.distribute(secret, publickeys, threshold, &polynomial, &w);
        assert(polynomial.coeffs().len() == threshold);
        r
    }

    /// Decrypts the share that `share_box` holds for the key of
    /// `private_key` and proves the decryption with witness `w`.
    pub fn extract_share(
        &self,
        share_box: &DistributionShareBox,
        private_key: &BigNum,
        w: &BigNum,
    ) -> (r: Option<ShareBox>)
        requires
            self.vss.valid(),
            private_key.value() >= 0,
            w.value() >= 0,
        ensures
            r matches Some(sb) ==> extraction_from(
                self.vss.q.value(),
                self.vss.G.value(),
                *share_box,
                private_key.value(),
                w.value(),
            ) == Some(sharebox_values(sb)),
            r is None ==> extraction_from(
                self.vss.q.value(),
                self.vss.G.value(),
                *share_box,
                private_key.value(),
                w.value(),
            ) is None,
    {
        let vss = &self.vss;
        let public_key = vss.generate_public_key(private_key);
        let encrypted_secret_share = match share_box.share_of(&public_key) {
            Some(y) => y,
            None => {
                return None;
            },
        };
        if big_lt(&encrypted_secret_share, &BigNum::zero()) {
            return None;
        }
        let q1 = big_sub(&vss.q, &BigNum::from_i64(1));
        let privatekey_inverse = match Util::mod_inverse(private_key, &q1) {
            Some(v) => v,
            None => {
                return None;
            },
        };
        let decrypted_share = big_modpow(&encrypted_secret_share, &privatekey_inverse, &vss.q);
        let mut dleq = DLEQ::new();
        dleq.init2(
            vss.G.dup(),
            public_key.dup(),
            decrypted_share.dup(),
            encrypted_secret_share.dup(),
            vss.q.dup(),
            private_key.dup(),
            w.dup(),
        );
        let mut transcript = Transcript::new();
        transcript.absorb(&public_key);
        transcript.absorb(&encrypted_secret_share);
        transcript.absorb(&dleq.get_a1());
        transcript.absorb(&dleq.get_a2());
        assert(transcript.bytes@ =~= statement_bytes(
            public_key.value(),
            encrypted_secret_share.value(),
            commit(vss.G.value(), w.value(), vss.q.value()),
            commit(decrypted_share.value(), w.value(), vss.q.value()),
        ));
        let challenge = transcript.digest_mod(&q1);
        dleq.c = Some(challenge.dup());
        let response = dleq.get_r().unwrap();
        let mut share = ShareBox::new();
        share.init(public_key, decrypted_share, challenge, response);
        Some(share)
    }

    /// Decrypts and proves the share for the key of `private_key`, with a
    /// witness drawn from `length` random bits reduced modulo `q`.
    pub fn extract_secret_share(&self, share_box: &DistributionShareBox, private_key: &BigNum) -> (r:
        Option<ShareBox>)
        requires
            self.vss.valid(),
            private_key.value() >= 0,
        ensures
            r is None <==> extraction_from(
                self.vss.q.value(),
                self.vss.G.value(),
                *share_box,
                private_key.value(),
                0,
            ) is None,
            r matches Some(sb) ==> exists|w: int|
                0 <= w < self.vss.q.value() && extraction_from(
                    self.vss.q.value(),
                    self.vss.G.value(),
                    *share_box,
                    private_key.value(),
                    w,
                ) == Some(sharebox_values(sb)),
    {
        let bits = random_bits(self.vss.length as usize);
        let w = big_mod_floor(&bits, &self.vss.q);
        let r = self.extract_share(share_box, private_key, &w);
        r
    }

    /// Whether a distribution box passes public verification.
    pub fn verify_distribution_shares(&self, distribution_sharebox: &DistributionShareBox) -> (r:
        bool)
        requires
            self.vss.valid(),
        ensures
            r == crate::vss::distribution_holds(
                self.vss.q.value(),
                self.vss.g.value(),
                *distribution_sharebox,
            ),
    {
        self.vss.verify_distribution_shares(distribution_sharebox)
    }

    /// Whether `sharebox` is a correctly decrypted share of the encrypted
    /// share held for `publickey`.
    pub fn verify_share(
        &self,
        sharebox: &ShareBox,
        distribution_sharebox: &DistributionShareBox,
        publickey: &BigNum,
    ) -> (r: bool)
        requires
            self.vss.valid(),
        ensures
            r == match distribution_sharebox.share_at(publickey.value()) {
                Some(y) => crate::vss::share_proof_holds(
                    self.vss.q.value(),
                    self.vss.G.value(),
                    *sharebox,
                    y,
                ),
                None => false,
            },
    {
        self.vss.verify_share(sharebox, distribution_sharebox, publickey)
    }

    /// Recovers the secret from the boxes.
    pub fn reconstruct(&self, share_boxes: &[ShareBox], distribution_sharebox: &DistributionShareBox)
        -> (r: Option<BigNum>)
        requires
            self.vss.valid(),
        ensures
            r matches Some(v) ==> crate::vss::reconstruction(
                self.vss.q.value(),
                share_boxes@,
                *distribution_sharebox,
            ) == Some(v.value()),
            r is None ==> crate::vss::reconstruction(
                self.vss.q.value(),
                share_boxes@,
                *distribution_sharebox,
            ) is None,
    {
        self.vss.reconstruct(share_boxes, distribution_sharebox)
    }
}

} // verus!