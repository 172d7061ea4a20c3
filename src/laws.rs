//! What holds of the scheme across operations: a distribution dealt by
//! `distribute` passes `verify_distribution_shares`; a share extracted by its
//! holder passes `verify_share`; distinct valid private keys have distinct
//! public keys; reconstruction from fewer boxes than the threshold yields
//! nothing; unmasking with the dealer's element returns the secret; and with
//! threshold one any single holder's box reconstructs the secret.
//!
//! The group modulus is taken to be prime in Fermat's sense: every residue
//! `0 < x < q` has `x^(q-1) mod q == 1`. For `q >= 2` this holds exactly when
//! `q` is prime (a proper divisor `d` of `q` would divide `d^(q-1) mod q`).

use vstd::arithmetic::div_mod::{
    lemma_add_mod_noop, lemma_fundamental_div_mod, lemma_mod_mod, lemma_mul_mod_noop_left,
    lemma_mul_mod_noop_right, lemma_mod_multiples_vanish, lemma_small_mod,
};
use vstd::arithmetic::power::{
    lemma1_pow, lemma_pow_adds, lemma_pow_mod_noop, lemma_pow_multiplies,
    pow,
};
use vstd::prelude::*;

use crate::bignum::{gcd, nums, xor_nat};
use crate::dleq::{challenge_of, commit, recommit, respond, statement_bytes};
use crate::participant::{
    commitments_of, dealer_bytes, encrypted_share, extraction_from, is_distribution,
    masked_secret, share_value, sharebox_values,
};
use crate::polynomial::poly_eval;
use crate::sharebox::{key_values, last_index, DistributionShareBox, ShareBox};
use crate::util::{
    inverse, lagrange, lagrange_den, lagrange_num, lemma_inverse_is_inverse, seq_max,
};
use crate::vss::{
    fermat_modulus, commitment_eval, distribution_bytes, distribution_holds, factor_product, mask, reconstruction,
    share_proof_holds, share_table, table_positions, VSS,
};

verus! {

/// A proper divisor of `q` contradicts the Fermat property, so a modulus with
/// it is prime.
pub proof fn lemma_fermat_modulus_is_prime(q: int, d: int)
    requires
        fermat_modulus(q),
        1 < d < q,
    ensures
        q % d != 0,
{
    if q % d == 0 {
        let p = pow(d, (q - 1) as nat);
        assert(pow(d, (q - 1) as nat) % q == 1);
        lemma_pow_adds(d, 1, (q - 2) as nat);
        vstd::arithmetic::power::lemma_pow1(d);
        let rest = pow(d, (q - 2) as nat);
        assert(p == d * rest);
        lemma_fundamental_div_mod(p, q);
        let k = p / q;
        let m = q / d;
        lemma_fundamental_div_mod(q, d);
        assert(q == d * m);
        assert(p == q * k + 1);
        assert(d * (rest - m * k) == 1) by (nonlinear_arith)
            requires
                p == d * rest,
                p == q * k + 1,
                q == d * m,
        ;
        assert(false) by (nonlinear_arith)
            requires
                d * (rest - m * k) == 1,
                d > 1,
        ;
    }
}

/// Exponents of a unit matter only modulo `q - 1`.
pub proof fn lemma_pow_exponent_mod(x: int, e: nat, q: int)
    requires
        fermat_modulus(q),
        0 < x < q,
    ensures
        pow(x, e) % q == pow(x, (e % ((q - 1) as nat)) as nat) % q,
{
    let m = (q - 1) as nat;
    let k = e / m;
    let r = e % m;
    lemma_fundamental_div_mod(e as int, m as int);
    assert(e == m * k + r);
    lemma_pow_adds(x, m * k, r);
    lemma_pow_multiplies(x, m, k);
    let big = pow(x, m);
    assert(big % q == 1);
    lemma_pow_mod_noop(big, k, q);
    lemma1_pow(k);
    lemma_small_mod(1, q as nat);
    assert(pow(big, k) % q == 1);
    lemma_mul_mod_noop_left(pow(big, k), pow(x, r), q);
    assert(pow(x, e) == pow(big, k) * pow(x, r));
    assert((pow(big, k) * pow(x, r)) % q == ((pow(big, k) % q) * pow(x, r)) % q);
    assert(1 * pow(x, r) == pow(x, r));
}

/// Exponents congruent modulo `q - 1` give the same power of a unit.
pub proof fn lemma_pow_congruent(x: int, e1: nat, e2: nat, q: int)
    requires
        fermat_modulus(q),
        0 < x < q,
        e1 % ((q - 1) as nat) == e2 % ((q - 1) as nat),
    ensures
        pow(x, e1) % q == pow(x, e2) % q,
{
    lemma_pow_exponent_mod(x, e1, q);
    lemma_pow_exponent_mod(x, e2, q);
}

/// No power of a unit is zero modulo `q`.
pub proof fn lemma_unit_pow_nonzero(x: int, e: nat, q: int)
    requires
        fermat_modulus(q),
        0 < x < q,
    ensures
        0 < pow(x, e) % q < q,
{
    let m = (q - 1) as nat;
    let total = (m * (e + 1)) as nat;
    assert(total >= e) by (nonlinear_arith)
        requires
            m >= 1,
            total == m * (e + 1),
    ;
    let rest = (total - e) as nat;
    lemma_pow_adds(x, e, rest);
    assert(total % m == 0) by {
        lemma_mod_multiples_vanish((e + 1) as int, 0, m as int);
        vstd::arithmetic::mul::lemma_mul_is_commutative(m as int, (e + 1) as int);
    }
    assert(0nat % m == 0);
    lemma_pow_congruent(x, total, 0, q);
    vstd::arithmetic::power::lemma_pow0(x);
    lemma_small_mod(1, q as nat);
    if pow(x, e) % q == 0 {
        lemma_mul_mod_noop_left(pow(x, e), pow(x, rest), q);
        assert((e + rest) as nat == total);
        assert(pow(x, total) == pow(x, e) * pow(x, rest));
        assert((pow(x, e) % q) * pow(x, rest) == 0);
        assert(0int % q == 0);
        assert(pow(x, total) % q == 0);
    }
}

/// `(b^s mod q)^c mod q == b^(s*c) mod q`.
pub proof fn lemma_pow_of_pow_mod(b: int, s: nat, c: nat, q: int)
    requires
        q > 0,
    ensures
        pow(pow(b, s) % q, c) % q == pow(b, s * c) % q,
{
    lemma_pow_mod_noop(pow(b, s), c, q);
    lemma_pow_multiplies(b, s, c);
}

/// `((b^x mod q) * (b^y mod q)) mod q == b^(x+y) mod q`.
pub proof fn lemma_pow_product_mod(b: int, x: nat, y: nat, q: int)
    requires
        q > 0,
    ensures
        ((pow(b, x) % q) * (pow(b, y) % q)) % q == pow(b, x + y) % q,
{
    lemma_pow_adds(b, x, y);
    lemma_mul_mod_noop_left(pow(b, x), pow(b, y) % q, q);
    lemma_mul_mod_noop_right(pow(b, x), pow(b, y), q);
}

/// The verifier's recomputed commitment for a base `b` and `h = b^s mod q`
/// equals the prover's commitment `b^w mod q` whenever `r + s*c == w` modulo
/// `q - 1`.
pub proof fn lemma_recommit_matches(b: int, s: nat, r: nat, c: nat, w: nat, q: int)
    requires
        fermat_modulus(q),
        0 < b < q,
        ((r + s * c) as int) % (q - 1) == (w as int) % (q - 1),
    ensures
        recommit(b, pow(b, s) % q, r as int, c as int, q) == commit(b, w as int, q),
{
    lemma_pow_of_pow_mod(b, s, c, q);
    let sc = (s * c) as nat;
    lemma_pow_product_mod(b, r, sc, q);
    assert(recommit(b, pow(b, s) % q, r as int, c as int, q) == ((pow(b, r) % q) * (pow(
        b,
        sc,
    ) % q)) % q);
    lemma_pow_congruent(b, (r + sc) as nat, w, q);
}

/// A response `(w - x) mod m` brings `x` back to `w` modulo `m`.
pub proof fn lemma_response_congruent(w: int, x: int, m: int)
    requires
        m > 0,
    ensures
        (((w - x) % m) + x) % m == w % m,
{
    lemma_add_mod_noop(w - x, x, m);
    lemma_add_mod_noop((w - x) % m, x, m);
    lemma_mod_mod(w - x, m, 1);
    vstd::arithmetic::div_mod::lemma_mod_twice(w - x, m);
}

/// A share box extracted by the holder of `sk` from a distribution box whose
/// encrypted share for `G^sk mod q` is a group element passes
/// `verify_share` against that key.
pub proof fn lemma_extracted_share_verifies(
    q: int,
    big_g: int,
    d: DistributionShareBox,
    sk: int,
    w: int,
    sb: ShareBox,
)
    requires
        fermat_modulus(q),
        0 < big_g < q,
        sk >= 0,
        w >= 0,
        extraction_from(q, big_g, d, sk, w) == Some(sharebox_values(sb)),
        d.share_at(pow(big_g, sk as nat) % q) matches Some(y) && 0 < y < q,
    ensures
        match d.share_at(pow(big_g, sk as nat) % q) {
            Some(y) => share_proof_holds(q, big_g, sb, y),
            None => false,
        },
{
    let m = q - 1;
    let pk = pow(big_g, sk as nat) % q;
    let y = d.share_at(pk).unwrap();
    lemma_unit_pow_nonzero(big_g, sk as nat, q);
    lemma_inverse_is_inverse(sk, m);
    let dinv = inverse(sk, m).unwrap();
    let s = pow(y, dinv as nat) % q;
    lemma_unit_pow_nonzero(y, dinv as nat, q);
    // y == s^sk mod q, as sk * dinv == 1 modulo q - 1
    lemma_pow_of_pow_mod(y, dinv as nat, sk as nat, q);
    assert(((dinv * sk) as nat) % (m as nat) == 1nat % (m as nat)) by {
        vstd::arithmetic::mul::lemma_mul_is_commutative(sk, dinv);
        lemma_small_mod(1, m as nat);
    }
    lemma_pow_congruent(y, (dinv * sk) as nat, 1, q);
    vstd::arithmetic::power::lemma_pow1(y);
    lemma_small_mod(y as nat, q as nat);
    assert(pow(s, sk as nat) % q == y);
    let c = challenge_of(statement_bytes(pk, y, commit(big_g, w, q), commit(s, w, q)), q);
    let r = respond(w, sk, c, q);
    assert(sharebox_values(sb) == (pk, s, c, r));
    assert(0 <= c && 0 <= r);
    lemma_response_congruent(w, sk * c, m);
    assert(((r + sk * c) as int) % m == w % m);
    lemma_recommit_matches(big_g, sk as nat, r as nat, c as nat, w as nat, q);
    lemma_recommit_matches(s, sk as nat, r as nat, c as nat, w as nat, q);
}

/// `sum_j c_j * (pos^j mod m)`: the exponent that the commitments give at
/// `pos`.
pub open spec fn exponent_sum(c: Seq<int>, pos: int, m: int) -> int
    decreases c.len(),
{
    if c.len() == 0 {
        0
    } else {
        exponent_sum(c.drop_last(), pos, m) + c.last() * (pow(pos, (c.len() - 1) as nat) % m)
    }
}

/// The exponent sum agrees with the polynomial's value modulo `m`.
pub proof fn lemma_exponent_sum_congruent(c: Seq<int>, pos: int, m: int)
    requires
        m > 0,
    ensures
        exponent_sum(c, pos, m) % m == poly_eval(c, pos) % m,
    decreases c.len(),
{
    if c.len() > 0 {
        let k = (c.len() - 1) as nat;
        let a = exponent_sum(c.drop_last(), pos, m);
        let b = poly_eval(c.drop_last(), pos);
        lemma_exponent_sum_congruent(c.drop_last(), pos, m);
        lemma_add_mod_noop(a, c.last() * (pow(pos, k) % m), m);
        lemma_add_mod_noop(b, c.last() * pow(pos, k), m);
        lemma_mul_mod_noop_right(c.last(), pow(pos, k), m);
    }
}

/// Commitments `g^c_j mod q` evaluated in the exponent at `pos` give `g`
/// raised to the exponent sum.
pub proof fn lemma_commitment_eval_is_power(g: int, c: Seq<int>, cm: Seq<int>, pos: int, q: int)
    requires
        q > 2,
        cm.len() == c.len(),
        forall|j: int| 0 <= j < c.len() ==> 0 <= #[trigger] c[j],
        forall|j: int| 0 <= j < c.len() ==> #[trigger] cm[j] == pow(g, c[j] as nat) % q,
    ensures
        exponent_sum(c, pos, q - 1) >= 0,
        commitment_eval(cm, pos, q) == pow(g, exponent_sum(c, pos, q - 1) as nat) % q,
    decreases c.len(),
{
    if c.len() == 0 {
        vstd::arithmetic::power::lemma_pow0(g);
        lemma_small_mod(1, q as nat);
    } else {
        let n = c.len();
        let c0 = c.drop_last();
        let cm0 = cm.drop_last();
        assert forall|j: int| 0 <= j < c0.len() implies #[trigger] cm0[j] == pow(g, c0[j] as nat)
            % q by {
            assert(cm0[j] == cm[j] && c0[j] == c[j]);
        }
        assert(forall|j: int| 0 <= j < c0.len() ==> 0 <= #[trigger] c0[j]) by {
            assert(forall|j: int| 0 <= j < c0.len() ==> c0[j] == c[j]);
        }
        lemma_commitment_eval_is_power(g, c0, cm0, pos, q);
        let e0 = exponent_sum(c0, pos, q - 1);
        let e = pow(pos, (n - 1) as nat) % (q - 1);
        let last = c[n - 1];
        assert(cm.last() == pow(g, last as nat) % q);
        assert(last * e >= 0) by (nonlinear_arith)
            requires
                last >= 0,
                e >= 0,
        ;
        lemma_pow_of_pow_mod(g, last as nat, e as nat, q);
        lemma_pow_product_mod(g, e0 as nat, (last * e) as nat, q);
    }
}

/// In a sequence without repeated keys, the entry for a key is the one at
/// its index.
pub proof fn lemma_last_index_distinct(keys: Seq<int>, i: int)
    requires
        0 <= i < keys.len(),
        forall|a: int, b: int| 0 <= a < b < keys.len() ==> keys[a] != keys[b],
    ensures
        last_index(keys, keys[i]) == Some(i),
    decreases keys.len(),
{
    if i < keys.len() - 1 {
        let k0 = keys.drop_last();
        assert(keys.last() != keys[i]);
        assert(k0[i] == keys[i]);
        lemma_last_index_distinct(k0, i);
    }
}

/// The verifier's transcript over the first `n` keys of a dealt box is the
/// dealer's.
proof fn lemma_distribution_bytes_match(
    vss: VSS,
    secret: int,
    pks: Seq<int>,
    t: nat,
    coeffs: Seq<int>,
    w: int,
    d: DistributionShareBox,
    n: nat,
)
    requires
        vss.prime_group(),
        coeffs.len() == t,
        forall|j: int| 0 <= j < t ==> 0 <= #[trigger] coeffs[j],
        w >= 0,
        forall|i: int| 0 <= i < pks.len() ==> 0 < #[trigger] pks[i] < vss.q.value(),
        forall|a: int, b: int| 0 <= a < b < pks.len() ==> pks[a] != pks[b],
        is_distribution(vss, secret, pks, t, coeffs, w, d),
        n <= pks.len(),
    ensures
        distribution_bytes(vss.q.value(), vss.g.value(), d, n) == Some(
            dealer_bytes(
                vss.q.value(),
                vss.g.value(),
                commitments_of(vss.g.value(), coeffs, vss.q.value(), t),
                coeffs,
                pks,
                w,
                n,
            ),
        ),
    decreases n,
{
    let q = vss.q.value();
    let g = vss.g.value();
    let m = q - 1;
    let cm = commitments_of(g, coeffs, q, t);
    let c = challenge_of(dealer_bytes(q, g, cm, coeffs, pks, w, pks.len()), q);
    if n > 0 {
        lemma_distribution_bytes_match(vss, secret, pks, t, coeffs, w, d, (n - 1) as nat);
        let i = n - 1;
        let pk = pks[i];
        assert(d.publickeys@[i].value() == pk) by {
            assert(nums(d.publickeys@)[i] == d.publickeys@[i].value());
        }
        assert(key_values(d.positions@) =~= pks);
        assert(key_values(d.shares@) =~= pks);
        assert(key_values(d.responses@) =~= pks);
        assert(d.positions@[i].0.value() == pk);
        lemma_last_index_distinct(pks, i);
        let pos = i + 1;
        assert(d.position_at(pk) == Some(pos));
        let s = share_value(coeffs, pos, q);
        let y = encrypted_share(q, coeffs, pks, i);
        let r = respond(w, s, c, q);
        assert(d.share_at(pk) == Some(y));
        assert(d.response_at(pk) == Some(r));
        assert(d.challenge.value() == c);
        assert(nums(d.commitments@) == cm);
        // the commitments evaluate to g^E with E == p(pos) modulo q - 1
        assert forall|j: int| 0 <= j < coeffs.len() implies #[trigger] cm[j] == pow(
            g,
            coeffs[j] as nat,
        ) % q by {}
        lemma_commitment_eval_is_power(g, coeffs, cm, pos, q);
        let e = exponent_sum(coeffs, pos, m);
        lemma_exponent_sum_congruent(coeffs, pos, m);
        assert(s % m == s) by {
            lemma_mod_mod(poly_eval(coeffs, pos), m, 1);
            vstd::arithmetic::div_mod::lemma_mod_twice(poly_eval(coeffs, pos), m);
        }
        assert(0 <= s && 0 <= c && 0 <= r);
        lemma_response_congruent(w, s * c, m);
        lemma_mul_mod_noop_left(e, c, m);
        lemma_mul_mod_noop_left(s, c, m);
        lemma_add_mod_noop(r, e * c, m);
        lemma_add_mod_noop(r, s * c, m);
        assert(((r + e * c) as int) % m == w % m);
        assert(e * c >= 0) by (nonlinear_arith)
            requires
                e >= 0,
                c >= 0,
        ;
        lemma_recommit_matches(g, e as nat, r as nat, c as nat, w as nat, q);
        lemma_recommit_matches(pk, s as nat, r as nat, c as nat, w as nat, q);
    }
}

/// A distribution box dealt to distinct group elements, with a polynomial
/// of `t` non-negative coefficients and a non-negative witness, passes
/// `verify_distribution_shares`.
pub proof fn lemma_dealt_distribution_verifies(
    vss: VSS,
    secret: int,
    pks: Seq<int>,
    t: nat,
    coeffs: Seq<int>,
    w: int,
    d: DistributionShareBox,
)
    requires
        vss.prime_group(),
        coeffs.len() == t,
        forall|j: int| 0 <= j < t ==> 0 <= #[trigger] coeffs[j],
        w >= 0,
        forall|i: int| 0 <= i < pks.len() ==> 0 < #[trigger] pks[i] < vss.q.value(),
        forall|a: int, b: int| 0 <= a < b < pks.len() ==> pks[a] != pks[b],
        is_distribution(vss, secret, pks, t, coeffs, w, d),
    ensures
        distribution_holds(vss.q.value(), vss.g.value(), d),
{
    lemma_distribution_bytes_match(vss, secret, pks, t, coeffs, w, d, pks.len());
    assert(d.publickeys@.len() == pks.len()) by {
        assert(nums(d.publickeys@).len() == d.publickeys@.len());
    }
}

/// The greatest common divisor of two even numbers is even.
pub proof fn lemma_gcd_even(a: nat, b: nat)
    requires
        a % 2 == 0,
        b % 2 == 0,
    ensures
        gcd(a, b) % 2 == 0,
    decreases b,
{
    if b > 0 {
        lemma_fundamental_div_mod(a as int, b as int);
        let k = a / b;
        let r = a % b;
        let b2 = b / 2;
        let a2 = a / 2;
        assert(b == 2 * b2 && a == 2 * a2);
        assert(b * k == 2 * (b2 * k)) by (nonlinear_arith)
            requires
                b == 2 * b2,
        ;
        let t = a2 - b2 * k;
        assert(r == 2 * t);
        lemma_gcd_even(b, r);
    }
}

/// `x^k mod q == 1` together with `x^j mod q == 1` for `j >= k` gives
/// `x^(j-k) mod q == 1`.
proof fn lemma_pow_one_difference(x: int, k: nat, j: nat, q: int)
    requires
        q > 2,
        k <= j,
        pow(x, k) % q == 1,
        pow(x, j) % q == 1,
    ensures
        pow(x, (j - k) as nat) % q == 1,
{
    let d = (j - k) as nat;
    lemma_pow_product_mod(x, k, d, q);
    assert((k + d) as nat == j);
    lemma_mod_mod(pow(x, d), q, 1);
    vstd::arithmetic::div_mod::lemma_mod_twice(pow(x, d), q);
    assert((1 * (pow(x, d) % q)) == pow(x, d) % q);
    lemma_small_mod((pow(x, d) % q) as nat, q as nat);
}

/// Two private keys in `[0, q)` coprime to `q - 1` with the same power
/// `G^sk mod q` are equal, when `q - 1 == 2p` with `p` odd and `G` has order
/// at least `p`.
proof fn lemma_public_key_injective(q: int, big_g: int, sk1: nat, sk2: nat)
    requires
        fermat_modulus(q),
        (q - 1) % 4 == 2,
        0 < big_g < q,
        forall|k: nat| 0 < k < (q - 1) / 2 ==> #[trigger] pow(big_g, k) % q != 1,
        sk1 < q && sk2 < q,
        gcd(sk1, (q - 1) as nat) == 1,
        gcd(sk2, (q - 1) as nat) == 1,
        pow(big_g, sk1) % q == pow(big_g, sk2) % q,
    ensures
        sk1 == sk2,
{
    if sk1 != sk2 {
        let (hi, lo) = if sk1 > sk2 {
            (sk1, sk2)
        } else {
            (sk2, sk1)
        };
        let m = (q - 1) as nat;
        let p = m / 2;
        let delta = (hi - lo) as nat;
        // G^delta == 1: multiply both keys' powers by G^(q-1-lo)
        let e = (m - lo) as nat;
        lemma_pow_product_mod(big_g, hi, e, q);
        lemma_pow_product_mod(big_g, lo, e, q);
        assert(pow(big_g, (lo + e) as nat) % q == 1) by {
            assert((lo + e) as nat == m);
        }
        assert(pow(big_g, (hi + e) as nat) % q == 1);
        assert((hi + e) as nat == delta + m);
        assert(((delta + m) as nat) % m == delta % m) by {
            lemma_mod_multiples_vanish(1, delta as int, m as int);
        }
        lemma_pow_congruent(big_g, (delta + m) as nat, delta, q);
        assert(pow(big_g, delta) % q == 1);
        assert(pow(big_g, m) % q == 1);
        assert(m == 2 * p) by {
            lemma_fundamental_div_mod(m as int, 4);
        }
        assert(p % 2 == 1) by {
            lemma_fundamental_div_mod(m as int, 4);
        }
        if delta < p {
            assert(pow(big_g, delta) % q != 1);
        } else if delta == p {
            // one of the keys is even, so it shares the factor 2 with q - 1
            let even = if lo % 2 == 0 {
                lo
            } else {
                hi
            };
            assert(even % 2 == 0);
            lemma_gcd_even(even, m);
        } else if delta < m {
            lemma_pow_one_difference(big_g, delta, m, q);
            let rest = (m - delta) as nat;
            assert(0 < rest < p);
            assert(pow(big_g, rest) % q != 1);
        } else {
            // lo == 0, whose gcd with q - 1 is q - 1
            assert(lo == 0);
            assert(0nat % m == 0);
            assert(gcd(0, m) == gcd(m, 0nat % m));
            assert(gcd(m, 0) == m);
        }
    }
}

/// `x XOR x == 0`.
pub proof fn lemma_xor_self(x: nat)
    ensures
        xor_nat(x, x) == 0,
    decreases x,
{
    if x > 0 {
        lemma_xor_self(x / 2);
    }
}

/// Only equal numbers have a zero exclusive or.
pub proof fn lemma_xor_zero(a: nat, b: nat)
    requires
        xor_nat(a, b) == 0,
    ensures
        a == b,
    decreases a + b,
{
    if a > 0 && b > 0 {
        lemma_xor_zero(a / 2, b / 2);
    }
}

/// Applying the same mask twice gives the value back:
/// `h XOR (s XOR h) == s`.
pub proof fn lemma_xor_unmask(s: nat, h: nat)
    ensures
        xor_nat(h, xor_nat(s, h)) == s,
    decreases s + h,
{
    if h == 0 {
        assert(xor_nat(s, 0) == s);
    } else if s == 0 {
        lemma_xor_self(h);
    } else {
        let u = xor_nat(s, h);
        if u == 0 {
            lemma_xor_zero(s, h);
        } else {
            let bit: nat = if s % 2 == h % 2 {
                0
            } else {
                1
            };
            let rest = xor_nat(s / 2, h / 2);
            assert(u == bit + 2 * rest);
            assert(u / 2 == rest && u % 2 == bit);
            lemma_xor_unmask(s / 2, h / 2);
        }
    }
}

/// Unmasking with the dealer's own element gives the secret back: when the
/// boxes recombine to `G^(p(0) mod (q-1)) mod q`, reconstruction from a
/// dealt box yields the dealt secret.
pub proof fn lemma_unmask_recovers_secret(
    vss: VSS,
    secret: int,
    pks: Seq<int>,
    t: nat,
    coeffs: Seq<int>,
    w: int,
    d: DistributionShareBox,
    boxes: Seq<ShareBox>,
)
    requires
        vss.valid(),
        secret >= 0,
        is_distribution(vss, secret, pks, t, coeffs, w, d),
        boxes.len() >= d.commitments@.len(),
        share_table(d, boxes) matches Some(tb) && factor_product(
            vss.q.value(),
            tb,
            table_positions(tb),
            tb.len(),
        ) == pow(vss.G.value(), (poly_eval(coeffs, 0) % (vss.q.value() - 1)) as nat)
            % vss.q.value(),
    ensures
        reconstruction(vss.q.value(), boxes, d) == Some(secret),
{
    let q = vss.q.value();
    let gamma = pow(vss.G.value(), (poly_eval(coeffs, 0) % (q - 1)) as nat) % q;
    let h = mask(gamma, q);
    assert(h >= 0);
    assert(d.u.value() == masked_secret(q, vss.G.value(), coeffs, secret));
    lemma_xor_unmask(secret as nat, h as nat);
}

/// With fewer boxes than the threshold of a dealt box, reconstruction
/// yields nothing; so with threshold `N`, every holder must contribute.
pub proof fn lemma_too_few_shares_fail(
    vss: VSS,
    secret: int,
    pks: Seq<int>,
    t: nat,
    coeffs: Seq<int>,
    w: int,
    d: DistributionShareBox,
    boxes: Seq<ShareBox>,
)
    requires
        is_distribution(vss, secret, pks, t, coeffs, w, d),
        boxes.len() < t,
    ensures
        reconstruction(vss.q.value(), boxes, d) is None,
{
    assert(nums(d.commitments@).len() == d.commitments@.len());
}

/// Over positions holding only `i`, no factor enters the Lagrange products.
proof fn lemma_lagrange_single(i: int, s: Seq<i64>, hi: int)
    requires
        forall|k: int| 0 <= k < s.len() ==> s[k] == i,
        hi <= i64::MAX,
    ensures
        lagrange_num(i, s, hi) == 1,
        lagrange_den(i, s, hi) == 1,
    decreases hi,
{
    if hi >= 1 {
        lemma_lagrange_single(i, s, hi - 1);
        if hi != i {
            assert(hi as i64 == hi);
            assert(!s.contains(hi as i64));
        }
    }
}

/// With threshold one, the single box of any listed holder reconstructs the
/// dealt secret.
pub proof fn lemma_threshold_one_single_share(
    vss: VSS,
    secret: int,
    pks: Seq<int>,
    coeffs: Seq<int>,
    w: int,
    d: DistributionShareBox,
    sk: int,
    w2: int,
    holder: int,
    sb: ShareBox,
)
    requires
        vss.prime_group(),
        secret >= 0,
        coeffs.len() == 1,
        coeffs[0] >= 0,
        forall|a: int, b: int| 0 <= a < b < pks.len() ==> pks[a] != pks[b],
        0 <= holder < pks.len() < i64::MAX,
        sk >= 0,
        w2 >= 0,
        pow(vss.G.value(), sk as nat) % vss.q.value() == pks[holder],
        is_distribution(vss, secret, pks, 1, coeffs, w, d),
        extraction_from(vss.q.value(), vss.G.value(), d, sk, w2) == Some(sharebox_values(sb)),
    ensures
        reconstruction(vss.q.value(), seq![sb], d) == Some(secret),
{
    let q = vss.q.value();
    let big_g = vss.G.value();
    let m = q - 1;
    let pk = pks[holder];
    let pos = holder + 1;
    lemma_unit_pow_nonzero(big_g, sk as nat, q);
    // the holder's position and encrypted share
    assert(key_values(d.positions@) =~= pks);
    assert(key_values(d.shares@) =~= pks);
    assert(d.positions@[holder].0.value() == pk);
    lemma_last_index_distinct(pks, holder);
    assert(d.position_at(pk) == Some(pos));
    let y = encrypted_share(q, coeffs, pks, holder);
    assert(d.share_at(pk) == Some(y));
    // a constant polynomial takes its coefficient everywhere
    let a0 = coeffs[0];
    assert(coeffs.drop_last() =~= Seq::<int>::empty());
    vstd::arithmetic::power::lemma_pow0(pos);
    vstd::arithmetic::power::lemma_pow0(0);
    assert(coeffs.last() == a0);
    assert(poly_eval(coeffs.drop_last(), pos) == 0);
    assert(poly_eval(coeffs.drop_last(), 0) == 0);
    assert(poly_eval(coeffs, pos) == a0 * pow(pos, 0));
    assert(poly_eval(coeffs, 0) == a0 * pow(0, 0));
    let s0 = a0 % m;
    assert(share_value(coeffs, pos, q) == s0);
    // the decrypted share is G^s0
    lemma_inverse_is_inverse(sk, m);
    let dinv = inverse(sk, m).unwrap();
    let share = pow(y, dinv as nat) % q;
    assert(sb.share.value() == share);
    assert(sb.publickey.value() == pk);
    lemma_pow_of_pow_mod(big_g, sk as nat, s0 as nat, q);
    let e1 = (sk * s0) as nat;
    assert(sk * s0 >= 0) by (nonlinear_arith)
        requires
            sk >= 0,
            s0 >= 0,
    ;
    lemma_pow_of_pow_mod(big_g, e1, dinv as nat, q);
    let e2 = (e1 * dinv) as nat;
    assert(e1 * dinv >= 0) by (nonlinear_arith)
        requires
            e1 >= 0,
            dinv >= 0,
    ;
    assert(share == pow(big_g, e2) % q);
    assert(e2 % (m as nat) == (s0 as nat) % (m as nat)) by {
        assert(e2 == s0 * (sk * dinv)) by (nonlinear_arith)
            requires
                e2 == e1 * dinv,
                e1 == sk * s0,
        ;
        lemma_mul_mod_noop_right(s0, sk * dinv, m);
        lemma_small_mod(1, m as nat);
        assert((s0 * (sk * dinv)) % m == (s0 * 1) % m);
    }
    lemma_pow_congruent(big_g, e2, s0 as nat, q);
    let gamma = pow(big_g, s0 as nat) % q;
    assert(share == gamma);
    // the table holds the one share, whose coefficient is one
    let boxes = seq![sb];
    assert(boxes.drop_last() =~= Seq::<ShareBox>::empty());
    let tb = seq![(pos as i64, share)];
    assert(boxes.last() == sb);
    assert(share_table(d, boxes.drop_last()) == Some(Seq::<(i64, int)>::empty()));
    assert(crate::vss::table_index(Seq::<(i64, int)>::empty(), pos as i64) is None);
    assert(Seq::<(i64, int)>::empty().push((pos as i64, share)) =~= tb);
    assert(share_table(d, boxes) == Some(tb));
    let vals = table_positions(tb);
    assert(vals =~= seq![pos as i64]);
    assert(vals.contains(pos as i64)) by {
        assert(vals[0] == pos as i64);
    }
    assert(seq_max(vals) == pos);
    lemma_lagrange_single(pos, vals, pos);
    assert(lagrange(pos as i64, vals) == (1int, 1int));
    vstd::arithmetic::power::lemma_pow1(share);
    lemma_small_mod(share as nat, q as nat);
    lemma_unit_pow_nonzero(big_g, s0 as nat, q);
    assert(factor_product(q, tb, vals, 0) == 1);
    assert(factor_product(q, tb, vals, 1) == (1 * share) % q);
    assert(tb.len() == 1);
    assert(d.commitments@.len() == 1) by {
        assert(nums(d.commitments@).len() == d.commitments@.len());
    }
    lemma_unmask_recovers_secret(vss, secret, pks, 1, coeffs, w, d, boxes);
}

/// The public key determines the private key: in a safe-prime group
/// (`q - 1 == 2p` with `p` odd) whose key generator `G` has order `p` or
/// `2p`, two valid private keys (in `[0, q)`, coprime to `q - 1`) with the
/// same public key `G^sk mod q` are equal.
pub proof fn lemma_public_keys_distinct(vss: VSS, sk1: nat, sk2: nat)
    requires
        vss.prime_group(),
        (vss.q.value() - 1) % 4 == 2,
        forall|k: nat|
            0 < k < (vss.q.value() - 1) / 2 ==> #[trigger] pow(vss.G.value(), k) % vss.q.value()
                != 1,
        sk1 < vss.q.value() && sk2 < vss.q.value(),
        gcd(sk1, (vss.q.value() - 1) as nat) == 1,
        gcd(sk2, (vss.q.value() - 1) as nat) == 1,
        pow(vss.G.value(), sk1) % vss.q.value() == pow(vss.G.value(), sk2) % vss.q.value(),
    ensures
        sk1 == sk2,
{
    lemma_public_key_injective(vss.q.value(), vss.G.value(), sk1, sk2);
}

/// A share box that the holder of a listed key extracts from a dealt box
/// passes `verify_share` against that key.
pub proof fn lemma_dealt_share_verifies(
    vss: VSS,
    secret: int,
    pks: Seq<int>,
    t: nat,
    coeffs: Seq<int>,
    w: int,
    d: DistributionShareBox,
    sk: int,
    w2: int,
    holder: int,
    sb: ShareBox,
)
    requires
        vss.prime_group(),
        forall|i: int| 0 <= i < pks.len() ==> 0 < #[trigger] pks[i] < vss.q.value(),
        forall|a: int, b: int| 0 <= a < b < pks.len() ==> pks[a] != pks[b],
        is_distribution(vss, secret, pks, t, coeffs, w, d),
        0 <= holder < pks.len(),
        sk >= 0,
        w2 >= 0,
        pow(vss.G.value(), sk as nat) % vss.q.value() == pks[holder],
        extraction_from(vss.q.value(), vss.G.value(), d, sk, w2) == Some(sharebox_values(sb)),
    ensures
        match d.share_at(pks[holder]) {
            Some(y) => share_proof_holds(vss.q.value(), vss.G.value(), sb, y),
            None => false,
        },
{
    let q = vss.q.value();
    let pk = pks[holder];
    assert forall|k: int| 0 <= k < pks.len() implies key_values(d.shares@)[k] == pks[k] by {
        assert(d.positions@[k].0.value() == pks[k]);
    }
    assert(key_values(d.shares@) =~= pks);
    assert(d.shares@[holder].1.value() == encrypted_share(q, coeffs, pks, holder)) by {
        assert(d.positions@[holder].0.value() == pks[holder]);
    }
    lemma_last_index_distinct(pks, holder);
    let s = share_value(coeffs, holder + 1, q);
    assert(s >= 0);
    lemma_unit_pow_nonzero(pk, s as nat, q);
    assert(d.share_at(pk) == Some(encrypted_share(q, coeffs, pks, holder)));
    lemma_extracted_share_verifies(q, vss.G.value(), d, sk, w2, sb);
}

} // verus!