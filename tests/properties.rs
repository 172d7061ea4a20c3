use num_bigint::{BigInt, Sign};
use rust_vss::bignum::BigNum;
use rust_vss::polynomial::Polynomial;
use rust_vss::vss::VSS;
use rust_vss::{
    string_from_secret, string_to_secret, try_string_from_secret, DistributionShareBox, Participant,
    ShareBox,
};

fn n(v: i64) -> BigNum {
    let (s, mag) = BigInt::from(v).to_u32_digits();
    BigNum { neg: s == Sign::Minus, mag }
}

fn big(x: &BigNum) -> BigInt {
    BigInt::new(if x.neg { Sign::Minus } else { Sign::Plus }, x.mag.clone())
}

fn add(x: &BigNum, v: i64) -> BigNum {
    let (s, mag) = (big(x) + BigInt::from(v)).to_u32_digits();
    BigNum { neg: s == Sign::Minus, mag }
}

fn small_group() -> VSS {
    let mut vss = VSS::new();
    vss.q = n(179426549);
    vss.g = n(1301081);
    vss.G = n(15486487);
    vss.length = 64;
    vss
}

fn small_participant(sk: i64) -> Participant {
    let mut p = Participant::new();
    p.vss = small_group();
    p.privatekey = n(sk);
    p.publickey = p.vss.generate_public_key(&p.privatekey);
    p
}

const KEYS: [i64; 3] = [7901, 4801, 1453];

fn deal(coefficients: &[i64], keys: &[i64], threshold: u32) -> DistributionShareBox {
    let mut dealer = small_participant(105929);
    let mut polynomial = Polynomial::new();
    let c: Vec<BigNum> = coefficients.iter().map(|v| n(*v)).collect();
    polynomial.init_coefficients(&c);
    let pks: Vec<BigNum> = keys.iter().map(|k| small_participant(*k).publickey).collect();
    dealer.distribute(&n(1234567890), &pks, threshold, &polynomial, &n(6345))
}

fn extract_all(d: &DistributionShareBox, keys: &[i64]) -> Vec<ShareBox> {
    keys.iter()
        .map(|k| {
            let p = small_participant(*k);
            p.extract_share(d, &p.privatekey, &n(1337)).unwrap()
        })
        .collect()
}

#[test]
fn dealt_box_verifies_for_every_threshold() {
    let coefficients = [164102006, 43489589, 98100795];
    for t in 1..=3 {
        let d = deal(&coefficients[..t], &KEYS, t as u32);
        assert!(small_group().verify_distribution_shares(&d));
        assert_eq!(d.commitments.len(), t);
    }
}

#[test]
fn extracted_shares_verify() {
    let d = deal(&[164102006, 43489589, 98100795], &KEYS, 3);
    let boxes = extract_all(&d, &KEYS);
    let vss = small_group();
    for (sb, k) in boxes.iter().zip(KEYS.iter()) {
        let pk = small_participant(*k).publickey;
        assert!(vss.verify_share(sb, &d, &pk));
    }
    // a box checked against another recipient's encrypted share fails
    let other = small_participant(KEYS[1]).publickey;
    assert!(!vss.verify_share(&boxes[0], &d, &other));
}

#[test]
fn any_threshold_subset_reconstructs() {
    let d = deal(&[164102006, 43489589], &KEYS, 2);
    let boxes = extract_all(&d, &KEYS);
    let vss = small_group();
    for (a, b) in [(0, 1), (1, 2), (0, 2)] {
        let subset = [boxes[a].clone(), boxes[b].clone()];
        let r = vss.reconstruct(&subset, &d);
        assert!(r.is_some());
    }
    assert_eq!(vss.reconstruct(&boxes, &d), Some(n(1234567890)));
}

#[test]
fn distinct_private_keys_give_distinct_public_keys() {
    let vss = small_group();
    let a = vss.generate_public_key(&n(7901));
    let b = vss.generate_public_key(&n(4801));
    assert_ne!(a, b);
}

#[test]
fn secret_string_round_trip() {
    for s in ["Test", "a", "héllo wörld", "秘密"] {
        let secret = string_to_secret(s);
        assert_eq!(string_from_secret(&secret), s.to_string());
    }
    assert_eq!(string_to_secret("A"), n(65));
    assert_eq!(string_to_secret("AB"), n(16706));
}

#[test]
fn tampered_distribution_fails() {
    let vss = small_group();
    let d = deal(&[164102006, 43489589, 98100795], &KEYS, 3);

    let mut t = d.clone();
    t.commitments[1] = add(&t.commitments[1], 1);
    assert!(!vss.verify_distribution_shares(&t));

    let mut t = d.clone();
    t.shares[2].1 = add(&t.shares[2].1, 4);
    assert!(!vss.verify_distribution_shares(&t));

    let mut t = d.clone();
    t.responses[0].1 = add(&t.responses[0].1, 2);
    assert!(!vss.verify_distribution_shares(&t));

    let mut t = d.clone();
    t.challenge = add(&t.challenge, 1);
    assert!(!vss.verify_distribution_shares(&t));

    let mut t = d.clone();
    t.positions.pop();
    assert!(!vss.verify_distribution_shares(&t));
}

#[test]
fn tampered_share_fails() {
    let vss = small_group();
    let d = deal(&[164102006, 43489589, 98100795], &KEYS, 3);
    let sb = extract_all(&d, &KEYS[..1]).remove(0);
    let pk = small_participant(KEYS[0]).publickey;

    let mut t = sb.clone();
    t.share = add(&t.share, 1);
    assert!(!vss.verify_share(&t, &d, &pk));

    let mut t = sb.clone();
    t.response = add(&t.response, 1);
    assert!(!vss.verify_share(&t, &d, &pk));

    let mut t = sb.clone();
    t.challenge = add(&t.challenge, 1);
    assert!(!vss.verify_share(&t, &d, &pk));

    let mut t = sb.clone();
    t.response = n(-1);
    assert!(!vss.verify_share(&t, &d, &pk));
}

#[test]
fn threshold_one_single_share_reconstructs() {
    let d = deal(&[164102006], &KEYS, 1);
    assert_eq!(d.commitments.len(), 1);
    let boxes = extract_all(&d, &KEYS);
    let vss = small_group();
    for sb in boxes.iter() {
        assert_eq!(vss.reconstruct(&[sb.clone()], &d), Some(n(1234567890)));
    }
}

#[test]
fn threshold_equal_to_holders_needs_everyone() {
    let d = deal(&[164102006, 43489589, 98100795], &KEYS, 3);
    let boxes = extract_all(&d, &KEYS);
    let vss = small_group();
    assert_eq!(vss.reconstruct(&boxes, &d), Some(n(1234567890)));
    assert_eq!(vss.reconstruct(&boxes[..2], &d), None);
}

#[test]
fn single_holder_single_threshold() {
    let d = deal(&[98100795], &KEYS[..1], 1);
    let vss = small_group();
    assert!(vss.verify_distribution_shares(&d));
    let boxes = extract_all(&d, &KEYS[..1]);
    let pk = small_participant(KEYS[0]).publickey;
    assert!(vss.verify_share(&boxes[0], &d, &pk));
    assert_eq!(vss.reconstruct(&boxes, &d), Some(n(1234567890)));
}

#[test]
fn too_few_shares_give_nothing() {
    let d = deal(&[164102006, 43489589], &KEYS, 2);
    let boxes = extract_all(&d, &KEYS);
    assert_eq!(small_group().reconstruct(&boxes[..1], &d), None);
    assert_eq!(small_group().reconstruct(&[], &d), None);
}

#[test]
fn unknown_key_gives_nothing() {
    let d = deal(&[164102006, 43489589], &KEYS, 2);
    let mut boxes = extract_all(&d, &KEYS);
    boxes[1].publickey = n(42);
    assert_eq!(small_group().reconstruct(&boxes, &d), None);
    let stranger = small_participant(3);
    assert!(stranger.extract_share(&d, &stranger.privatekey, &n(1)).is_none());
    assert!(!small_group().verify_share(&boxes[0], &d, &n(42)));
}

#[test]
fn private_key_without_inverse_gives_nothing() {
    // 4 shares a factor with q - 1, so the share cannot be decrypted
    let mut d = deal(&[164102006], &KEYS, 1);
    let p = small_participant(4);
    d.shares.push((p.publickey.clone(), n(5)));
    assert!(p.extract_share(&d, &p.privatekey, &n(1)).is_none());
}

#[test]
fn distinct_positions_replace_earlier_boxes() {
    let d = deal(&[164102006, 43489589], &KEYS, 2);
    let boxes = extract_all(&d, &KEYS);
    // the same box twice holds one position only: the table has a single entry
    let twice = [boxes[0].clone(), boxes[0].clone()];
    let r = small_group().reconstruct(&twice, &d);
    assert!(r.is_some());
    assert_ne!(r, Some(n(1234567890)));
}

#[test]
fn end_to_end_with_the_modp_group() {
    let secret_message = String::from("Test");
    let mut dealer = Participant::new();
    dealer.initialize();
    let mut participants = vec![Participant::new(), Participant::new(), Participant::new()];
    for p in participants.iter_mut() {
        p.initialize();
    }
    let pks: Vec<BigNum> = participants.iter().map(|p| p.publickey.clone()).collect();
    let d = dealer.distribute_secret(&string_to_secret(&secret_message), &pks, 3);
    for p in participants.iter() {
        assert!(p.verify_distribution_shares(&d));
    }
    let boxes: Vec<ShareBox> = participants
        .iter()
        .map(|p| p.extract_secret_share(&d, &p.privatekey).unwrap())
        .collect();
    for i in 0..3 {
        let j = (i + 1) % 3;
        assert!(participants[i].verify_share(&boxes[j], &d, &participants[j].publickey));
    }
    for p in participants.iter() {
        let r = p.reconstruct(&boxes, &d).unwrap();
        assert_eq!(string_from_secret(&r), secret_message);
    }
}

#[test]
fn end_to_end_with_a_missing_participant() {
    let secret_message = String::from("Test");
    let mut dealer = Participant::new();
    dealer.initialize();
    let mut participants = vec![
        Participant::new(),
        Participant::new(),
        Participant::new(),
        Participant::new(),
    ];
    for p in participants.iter_mut() {
        p.initialize();
    }
    let pks: Vec<BigNum> = participants.iter().map(|p| p.publickey.clone()).collect();
    let d = dealer.distribute_secret(&string_to_secret(&secret_message), &pks, 3);
    for p in participants.iter() {
        assert!(p.verify_distribution_shares(&d));
    }
    let boxes: Vec<ShareBox> = participants
        .iter()
        .map(|p| p.extract_secret_share(&d, &p.privatekey).unwrap())
        .collect();
    assert!(participants[3].verify_share(&boxes[1], &d, &participants[1].publickey));
    // the third holder is absent: positions 1, 2 and 4 recombine
    let present = [boxes[0].clone(), boxes[1].clone(), boxes[3].clone()];
    for p in participants.iter() {
        let r = p.reconstruct(&present, &d).unwrap();
        assert_eq!(string_from_secret(&r), secret_message);
    }
}

#[test]
fn checked_decoding_of_secrets() {
    assert_eq!(try_string_from_secret(&string_to_secret("Test")), Some("Test".to_string()));
    // 0xff is not UTF-8
    assert_eq!(try_string_from_secret(&n(255)), None);
    assert_eq!(try_string_from_secret(&n(-65)), None);
    assert_eq!(try_string_from_secret(&n(65)), Some("A".to_string()));
}
