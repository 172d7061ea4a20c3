//! Chaum–Pedersen proof that `log_g1(h1) == log_g2(h2)`, made
//! non-interactive by a Fiat–Shamir transcript that several statements may
//! share.

use vstd::arithmetic::power::pow;
use vstd::prelude::*;

use crate::bignum::{
    big_mod_floor, big_modpow, big_mul, big_sub, random_prime, BigNum,
};
use crate::transcript::{decimal, hash_value, Transcript};

verus! {

/// The prover's commitment `g^w mod q`.
pub open spec fn commit(g: int, w: int, q: int) -> int {
    pow(g, w as nat) % q
}

/// The prover's response `(w - alpha*c) mod (q - 1)`, rounded down.
pub open spec fn respond(w: int, alpha: int, c: int, q: int) -> int {
    (w - alpha * c) % (q - 1)
}

/// The verifier's recomputed commitment `g^r * h^c mod q`.
pub open spec fn recommit(g: int, h: int, r: int, c: int, q: int) -> int {
    ((pow(g, r as nat) % q) * (pow(h, c as nat) % q)) % q
}

/// What one statement contributes to the transcript.
pub open spec fn statement_bytes(h1: int, h2: int, a1: int, a2: int) -> Seq<u8> {
    decimal(h1 as nat) + decimal(h2 as nat) + decimal(a1 as nat) + decimal(a2 as nat)
}

/// The challenge that a transcript yields under modulus `q`.
pub open spec fn challenge_of(bytes: Seq<u8>, q: int) -> int {
    (hash_value(bytes) as int) % (q - 1)
}

/// One statement of the proof with the prover's secret and witness, and the
/// challenge and response once they are known.
#[derive(Debug, Clone)]
pub struct DLEQ {
    pub g1: BigNum,
    pub h1: BigNum,
    pub g2: BigNum,
    pub h2: BigNum,
    pub w: BigNum,
    pub q: BigNum,
    pub alpha: BigNum,
    pub c: Option<BigNum>,
    pub a1: BigNum,
    pub a2: BigNum,
    pub r: Option<BigNum>,
}

impl DLEQ {
    /// A statement with every number zero and no challenge or response.
    pub fn new() -> (r: DLEQ)
        ensures
            r.g1.value() == 0 && r.h1.value() == 0 && r.g2.value() == 0 && r.h2.value() == 0,
            r.w.value() == 0 && r.q.value() == 0 && r.alpha.value() == 0,
            r.a1.value() == 0 && r.a2.value() == 0,
            r.c.is_none() && r.r.is_none(),
    {
        DLEQ {
            g1: BigNum::zero(),
            h1: BigNum::zero(),
            g2: BigNum::zero(),
            h2: BigNum::zero(),
            w: BigNum::zero(),
            q: BigNum::zero(),
            alpha: BigNum::zero(),
            c: None,
            a1: BigNum::zero(),
            a2: BigNum::zero(),
            r: None,
        }
    }

    /// Sets the statement with a witness drawn as a random `length`-bit
    /// prime reduced modulo `q`; `length` is at least 32 bits.
    pub fn init(
        &mut self,
        g1: BigNum,
        h1: BigNum,
        g2: BigNum,
        h2: BigNum,
        length: u32,
        q: BigNum,
        alpha: BigNum,
    )
        requires
            length >= 32,
            q.value() > 0,
        ensures
            final(self).g1 == g1 && final(self).h1 == h1,
            final(self).g2 == g2 && final(self).h2 == h2,
            final(self).q == q && final(self).alpha == alpha,
            0 <= final(self).w.value() < q.value(),
            final(self).c == old(self).c && final(self).r == old(self).r,
            final(self).a1 == old(self).a1 && final(self).a2 == old(self).a2,
    {
        let p = random_prime(length as usize);
        let w = big_mod_floor(&p, &q);
        self.init2(g1, h1, g2, h2, q, alpha, w);
    }

    /// Sets the statement, the secret and the witness.
    pub fn init2(
        &mut self,
        g1: BigNum,
        h1: BigNum,
        g2: BigNum,
        h2: BigNum,
        q: BigNum,
        alpha: BigNum,
        w: BigNum,
    )
        ensures
            final(self).g1 == g1 && final(self).h1 == h1,
            final(self).g2 == g2 && final(self).h2 == h2,
            final(self).q == q && final(self).alpha == alpha && final(self).w == w,
            final(self).c == old(self).c && final(self).r == old(self).r,
            final(self).a1 == old(self).a1 && final(self).a2 == old(self).a2,
    {
        self.g1 = g1;
        self.h1 = h1;
        self.g2 = g2;
        self.h2 = h2;
        self.q = q;
        self.alpha = alpha;
        self.w = w;
    }

    /// The first commitment `g1^w mod q`.
    pub fn get_a1(&self) -> (r: BigNum)
        requires
            self.w.value() >= 0,
            self.q.value() > 0,
        ensures
            r.value() == commit(self.g1.value(), self.w.value(), self.q.value()),
    {
        big_modpow(&self.g1, &self.w, &self.q)
    }

    /// The second commitment `g2^w mod q`.
    pub fn get_a2(&self) -> (r: BigNum)
        requires
            self.w.value() >= 0,
            self.q.value() > 0,
        ensures
            r.value() == commit(self.g2.value(), self.w.value(), self.q.value()),
    {
        big_modpow(&self.g2, &self.w, &self.q)
    }

    /// The response `(w - alpha*c) mod (q - 1)`, once a challenge is set.
    pub fn get_r(&self) -> (r: Option<BigNum>)
        requires
            self.q.value() > 1,
        ensures
            r.is_some() == self.c.is_some(),
            r.is_some() ==> r.unwrap().value() == respond(
                self.w.value(),
                self.alpha.value(),
                self.c.unwrap().value(),
                self.q.value(),
            ),
    {
        match &self.c {
            None => None,
            Some(c) => {
                let ac = big_mul(&self.alpha, c);
                let d = big_sub(&self.w, &ac);
                let q1 = big_sub(&self.q, &BigNum::from_i64(1));
                Some(big_mod_floor(&d, &q1))
            },
        }
    }

    /// The challenge an interactive verifier would send: always zero, as
    /// the challenge comes from the transcript instead.
    pub fn get_c(&self) -> (r: BigNum)
        ensures
            r.value() == 0,
    {
        BigNum::zero()
    }

    /// Recomputes both commitments from the response and the challenge and
    /// absorbs `h1, h2, a1', a2'` into the transcript.
    pub fn update_hash(&self, transcript: &mut Transcript)
        requires
            self.r.is_some() && self.c.is_some(),
            self.r.unwrap().value() >= 0,
            self.c.unwrap().value() >= 0,
            self.h1.value() >= 0 && self.h2.value() >= 0,
            self.q.value() > 0,
        ensures
            final(transcript).bytes@ == old(transcript).bytes@ + statement_bytes(
                self.h1.value(),
                self.h2.value(),
                recommit(
                    self.g1.value(),
                    self.h1.value(),
                    self.r.unwrap().value(),
                    self.c.unwrap().value(),
                    self.q.value(),
                ),
                recommit(
                    self.g2.value(),
                    self.h2.value(),
                    self.r.unwrap().value(),
                    self.c.unwrap().value(),
                    self.q.value(),
                ),
            ),
    {
        let r = self.r.as_ref().unwrap();
        let c = self.c.as_ref().unwrap();
        let a1 = big_mod_floor(
            &big_mul(&big_modpow(&self.g1, r, &self.q), &big_modpow(&self.h1, c, &self.q)),
            &self.q,
        );
        let a2 = big_mod_floor(
            &big_mul(&big_modpow(&self.g2, r, &self.q), &big_modpow(&self.h2, c, &self.q)),
            &self.q,
        );
        transcript.absorb(&self.h1);
        transcript.absorb(&self.h2);
        transcript.absorb(&a1);
        transcript.absorb(&a2);
        assert(transcript.bytes@ =~= old(transcript).bytes@ + statement_bytes(
            self.h1.value(),
            self.h2.value(),
            a1.value(),
            a2.value(),
        ));
    }

    /// Whether the transcript's challenge equals the one carried.
    pub fn check(&self, transcript: &Transcript) -> (r: bool)
        requires
            self.c.is_some(),
            self.q.value() > 1,
        ensures
            r == (challenge_of(transcript.bytes@, self.q.value()) == self.c.unwrap().value()),
    {
        let q1 = big_sub(&self.q, &BigNum::from_i64(1));
        let expected = transcript.digest_mod(&q1);
        crate::bignum::big_eq(&expected, self.c.as_ref().unwrap())
    }
}

} // verus!
