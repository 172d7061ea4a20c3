use num_bigint::{BigInt, Sign};
use rust_vss::bignum::BigNum;
use rust_vss::polynomial::Polynomial;
use rust_vss::vss::VSS;
use rust_vss::{DistributionShareBox, Participant, ShareBox};

fn n(v: i64) -> BigNum {
    let (s, mag) = BigInt::from(v).to_u32_digits();
    BigNum { neg: s == Sign::Minus, mag }
}

struct Setup {
    pub vss: VSS,
    pub privatekey: BigNum,
    pub secret: BigNum,
}

impl Setup {
    #[allow(non_snake_case)]
    fn new() -> Self {
        let q = n(179426549);
        let g = n(1301081);
        let G = n(15486487);
        let length: i64 = 64_i64;

        let mut vss = VSS::new();

        vss.q = q;
        vss.g = g;
        vss.G = G;
        vss.length = length as u32;

        Setup {
            vss,
            privatekey: n(105929),
            secret: n(1234567890),
        }
    }
}

fn dealer_distribute_share_box() -> DistributionShareBox {
    let setup = Setup::new();
    let mut dealer = Participant::new();

    dealer.vss = setup.vss.clone();
    dealer.privatekey = setup.privatekey.clone();
    dealer.publickey = setup.vss.generate_public_key(&setup.privatekey);

    let mut polynomial = Polynomial::new();

    polynomial.init_coefficients(&vec![n(164102006), n(43489589), n(98100795)]);

    let threshold = 3;
    let privatekeys = [n(7901), n(4801), n(1453)];
    let mut publickeys = vec![];
    let w = n(6345);

    for key in privatekeys.iter() {
        publickeys.push(setup.vss.generate_public_key(key));
    }

    dealer.distribute(&setup.secret, &publickeys, threshold, &polynomial, &w)
}

fn get_share_box() -> ShareBox {
    let distribution_share_box = dealer_distribute_share_box();
    let private_key = n(7901);
    let w = n(1337);
    let mut participant = Participant::new();
    let setup = Setup::new();

    participant.vss = setup.vss.clone();
    participant.privatekey = private_key.clone();
    participant.publickey = setup.vss.generate_public_key(&private_key);

    participant
        .extract_share(&distribution_share_box, &private_key, &w)
        .unwrap()
}

#[test]
fn test_distribution() {
    let distribution = dealer_distribute_share_box();
    let commitments = vec![n(92318234), n(76602245), n(63484157)];
    let shares = vec![n(42478042), n(80117658), n(86941725)];
    let challenge = n(41963410);
    let responses = vec![n(151565889), n(146145105), n(71350321)];

    assert_eq!(distribution.challenge, challenge);

    for i in 0..=2 {
        assert_eq!(distribution.commitments[i], commitments[i]);
        assert_eq!(
            distribution.share_of(&distribution.publickeys[i]).unwrap(),
            shares[i]
        );
        assert_eq!(
            distribution.response_of(&distribution.publickeys[i]).unwrap(),
            responses[i]
        );
    }
}

#[test]
fn test_verify_distribution() {
    let setup = Setup::new();
    let distribution = dealer_distribute_share_box();

    assert_eq!(setup.vss.verify_distribution_shares(&distribution), true);
}

#[test]
fn test_extract_share() {
    let share_box = get_share_box();

    assert_eq!(share_box.share, n(164021044));
    assert_eq!(share_box.challenge, n(134883166));
    assert_eq!(share_box.response, n(81801891));
}

#[test]
fn test_verify_share() {
    let private_key = n(7901);
    let distribution_share_box = dealer_distribute_share_box();
    let sharebox = get_share_box();

    let setup = Setup::new();

    assert_eq!(
        setup.vss.verify_share(
            &sharebox,
            &distribution_share_box,
            &setup.vss.generate_public_key(&private_key)
        ),
        true
    )
}

#[test]
fn test_secret_reconstruction() {
    let distribution_share_box = dealer_distribute_share_box();
    let share_box1 = get_share_box();
    let mut share_box2 = ShareBox::new();

    share_box2.init(n(132222922), n(157312059), n(0), n(0));

    let mut share_box3 = ShareBox::new();

    share_box3.init(n(65136827), n(63399333), n(0), n(0));

    let setup = Setup::new();
    let share_boxes = [share_box1, share_box2, share_box3];
    let reconstructed_secret = setup
        .vss
        .reconstruct(&share_boxes, &distribution_share_box)
        .unwrap();

    assert_eq!(reconstructed_secret, setup.secret);
}

// threshold reconstruction where 1 out of 4 participants is not available
#[test]
fn test_secret_reconstruction_with_sub_group() {
    let share_box1 = get_share_box();
    let mut share_box2 = ShareBox::new();

    share_box2.init(n(132222922), n(157312059), n(0), n(0));

    let public_key4 = n(42);
    let mut share_box4 = ShareBox::new();

    share_box4.init(public_key4.clone(), n(59066181), n(0), n(0));

    let positions = vec![
        (share_box1.clone().publickey, 1_i64),
        (share_box2.clone().publickey, 2_i64),
        (share_box4.clone().publickey, 4_i64),
    ];

    let mut distribution_share_box = DistributionShareBox::new();

    distribution_share_box.init(
        &vec![n(0), n(1), n(2)],
        positions,
        Vec::new(),
        &vec![],
        &n(0),
        Vec::new(),
        &n(1284073502),
    );

    let setup = Setup::new();
    let share_boxes = [share_box1, share_box2, share_box4];
    let reconstructed_secret = setup
        .vss
        .reconstruct(&share_boxes, &distribution_share_box)
        .unwrap();

    assert_eq!(reconstructed_secret, setup.secret);
}
