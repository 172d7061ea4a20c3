use num_bigint::{BigInt, Sign};
use rust_vss::bignum::BigNum;
use rust_vss::dleq::DLEQ;
use rust_vss::transcript::Transcript;

fn n(v: i64) -> BigNum {
    let (s, mag) = BigInt::from(v).to_u32_digits();
    BigNum { neg: s == Sign::Minus, mag }
}

fn big(x: &BigNum) -> BigInt {
    BigInt::new(if x.neg { Sign::Minus } else { Sign::Plus }, x.mag.clone())
}

#[test]
fn test_dleq() {
    let g1 = n(8443);
    let h1 = n(531216);
    let g2 = n(1299721);
    let h2 = n(14767239);
    let w = n(81647);
    let q = n(15487469);
    let alpha = n(163027);

    let mut dleq = DLEQ::new();

    dleq.init2(g1, h1, g2, h2, q.clone(), alpha, w);

    let a1 = n(14735247);
    let a2 = n(5290058);

    assert_eq!(dleq.get_a1(), a1);
    assert_eq!(dleq.get_a2(), a2);

    let c = n(127997);
    dleq.c = Some(c);

    let r = n(10221592);

    assert_eq!(dleq.get_r().unwrap(), r);
    let bq = big(&dleq.q);
    let br = big(&dleq.get_r().unwrap());
    let bc = big(dleq.c.as_ref().unwrap());
    assert_eq!(
        (big(&dleq.g1).modpow(&br, &bq) * big(&dleq.h1).modpow(&bc, &bq)) % big(&q),
        big(&a1)
    );
    assert_eq!(
        (big(&dleq.g2).modpow(&br, &bq) * big(&dleq.h2).modpow(&bc, &bq)) % big(&q),
        big(&a2)
    );
}

#[test]
fn response_is_absent_without_challenge() {
    let mut dleq = DLEQ::new();
    dleq.init2(n(2), n(4), n(3), n(9), n(23), n(2), n(5));
    assert!(dleq.get_r().is_none());
    assert_eq!(dleq.get_c(), n(0));
}

#[test]
fn transcript_absorbs_decimal_digits() {
    let mut t = Transcript::new();
    t.absorb(&n(120));
    t.absorb(&n(0));
    t.absorb(&n(7));
    assert_eq!(t.bytes, b"12007".to_vec());
}

#[test]
fn honest_proof_passes_its_check() {
    // log_2(2^5) == log_3(3^5) modulo 23, witness 7, challenge from the transcript
    let q = n(23);
    let mut prover = DLEQ::new();
    prover.init2(n(2), n(9), n(3), n(13), q.clone(), n(5), n(7));
    let mut t = Transcript::new();
    t.absorb(&prover.h1);
    t.absorb(&prover.h2);
    t.absorb(&prover.get_a1());
    t.absorb(&prover.get_a2());
    let c = t.digest_mod(&n(22));
    prover.c = Some(c.clone());
    let r = prover.get_r().unwrap();

    let mut verifier = DLEQ::new();
    verifier.init2(n(2), n(9), n(3), n(13), q, n(0), n(0));
    verifier.c = Some(c);
    verifier.r = Some(r);
    let mut replay = Transcript::new();
    verifier.update_hash(&mut replay);
    assert!(verifier.check(&replay));
}
