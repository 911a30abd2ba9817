use curv::arithmetic::{Converter, Modulo, Samplable};
use curv::BigInt;
use gg18::bigint::{mint_from_bytes, Mint};
use gg18::ProtocolError;

fn mint_to_bn(m: &Mint) -> BigInt {
    let v = BigInt::from_bytes(&m.mag[..]);
    if m.neg {
        -v
    } else {
        v
    }
}

fn bn_to_mint(v: &BigInt) -> Mint {
    mint_from_bytes(&v.to_bytes())
}

fn group_order() -> BigInt {
    curv::elliptic::curves::Scalar::<curv::elliptic::curves::Secp256k1>::group_order().clone()
}

#[test]
fn test_mta() {
    fn gen_party() -> gg18::mta::Party {
        let v = BigInt::sample_range(
            &BigInt::from_hex("80000000").unwrap(),
            &BigInt::from_hex("ffffffff").unwrap(),
        );
        gg18::mta::Party::new(8, bn_to_mint(&v))
    }
    let mut p1 = gen_party();
    let mut p2 = gen_party();
    let (alice_snap, bob_snap) = {
        p1.alicization();
        p2.bobization();
        let x2 = {
            let (e, x1) = p1.as_alice().to_bob();
            p2.as_bob().from_alice(&e, &x1).unwrap()
        };
        p1.as_alice().from_bob(&x2).unwrap();
        let alice = p1.as_alice();
        let a_m = mint_to_bn(&alice.m);
        let a_a = mint_to_bn(&alice.a);
        let alice_snap = (alice.m.clone(), alice.a.clone());
        let bob = p2.as_bob();
        let b_m = mint_to_bn(&bob.m);
        let b_a = mint_to_bn(&bob.a);
        let bob_snap = (bob.m.clone(), bob.a.clone());

        assert_eq!(&a_m * &b_m, &a_a + &b_a);
        (alice_snap, bob_snap)
    };

    let a = p1.get_result().unwrap();
    let b = p2.get_result().unwrap();

    assert_eq!(&alice_snap.0, a.0);
    assert_eq!(&alice_snap.1, a.1);
    assert_eq!(&bob_snap.0, b.0);
    assert_eq!(&bob_snap.1, b.1);
}

fn mta_trials(count: usize) {
    let q = group_order();
    let dec = gg18::mta::Dec::new(2047);
    let enc = dec.enc().clone();
    for _ in 0..count {
        let a = BigInt::sample_below(&q);
        let b = BigInt::sample_below(&q);
        let ca = dec.encrypt(&bn_to_mint(&a));
        let cb1 = enc.mul(&ca, &bn_to_mint(&b));
        let bp = BigInt::sample(336);
        let cbp = enc.encrypt(&bn_to_mint(&bp));
        let cb = enc.add(&cb1, &cbp);
        let alpha = dec.decrypt(&cb);
        let alpha_bn = mint_to_bn(&alpha);
        let beta = BigInt::modulus(&(-&bp), &q);
        let product = BigInt::modulus(&(&a * &b), &q);
        assert_eq!(BigInt::modulus(&(&alpha_bn + &beta), &q), product);
        assert_ne!(BigInt::modulus(&alpha_bn, &q), product);
        assert_ne!(beta, product);
    }
}

#[test]
fn mta_random_trials_first_quarter() {
    mta_trials(250);
}

#[test]
fn mta_random_trials_second_quarter() {
    mta_trials(250);
}

#[test]
fn mta_random_trials_third_quarter() {
    mta_trials(250);
}

#[test]
fn mta_random_trials_fourth_quarter() {
    mta_trials(250);
}

#[test]
fn corrupted_response_is_a_decryption_failure() {
    let q = group_order();
    let mut p1 = gg18::mta::Party::new(2047, bn_to_mint(&BigInt::sample_below(&q)));
    let mut p2 = gg18::mta::Party::new(2047, bn_to_mint(&BigInt::sample_below(&q)));
    p1.alicization();
    p2.bobization();
    let (e, c1) = p1.as_alice().to_bob();
    let mut c2 = p2.as_bob().from_alice(&e, &c1).unwrap();
    c2.b[3] ^= 0x40;
    let r = p1.as_alice().from_bob(&c2);
    assert_eq!(Err(ProtocolError::DecryptionFailure), r);
}
