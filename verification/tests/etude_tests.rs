use gg18::bigint::{mint_from_bytes, Mint};
use gg18::etude::{Etude, Party, PartyState};
use gg18::point::{point_from_xy, pt_mul, Point};
use gg18::scalar::{digest_message, fe_from_mpz, fe_to_mpz, scalar_add, Scalar};
use gg18::ProtocolError;

const WS: [&str; 4] = [
    "665a810dc99d56c604c2a8358a684f70237947e839ef3970a909f2d23aed61a4",
    "340cef276f90855df752548d512c1256f94f590a923043c1b7fc179269134d1",
    "2bf1905086f970cfb3b538bfe3a47668b06df9957aee5fc564ce89c4b0f386ba",
    "2cd2902b57838f651c68343014c2b718737c555f72b318a5c9c6ac8ea2cc47e7",
];
const KS: [&str; 4] = [
    "40c9be2c45ab9e80b5071be6face42ee237502545fc89e30b442e4c1390db113",
    "26bb56efe35f84c3eff393625e4cc4181e27863f3cd55f490f3b6320cc606f38",
    "f84b6192cc2d40100649fede7113e0f040a1ce7c372b638770305ab4381580b",
    "2033b1717189b92b954b7ea91c70a3bc1d17eac8de1b73e52d5565da33158300",
];
const GAMMAS: [&str; 4] = [
    "26a9762c60ff8c57a70c8e404fa673a0057dd5059ffa2f3319d16d166a446a2c",
    "163df239fa0f8fbfe49a305dcc1ba3cd8eee2e67702f7c75849de9afbd5ab42b",
    "6cca011b768369e4c348c1d109bab6cbd0a730f9ec6b9ca9ad8aff31262a1516",
    "230bde9675f2081dc7b1e692dd93cbd2c8a8a435a98e2e0f848d6d98cd3c1c2e",
];
const DELTAS: [&str; 4] = [
    "5778c22f7eeb9e2c2c845f80730694ea830e6ca227804b685ed9d1ab789dbb23",
    "e3fb8c46dfc09cdfec15219ae6379cb9feef4f19cf7402140234181c9010e148",
    "12b09188aca2ba4671d2b3f25dbebd400b989dbedc3ee6bf490a259c6da1915a",
    "ce01cce04f3d15250d7d2fc8818fc044e6c7fc09e55b7cfbabb30434552c786c",
];
const SIGMAS: [&str; 4] = [
    "ff82e4bc074b94c8e1252fbd0efb7ab57b42188897120fea50493bd60e1b0a72",
    "b2eb357d95805caedb0858804a9e3e9fd1bed51754628989f6bc58cf49d050a0",
    "acaa8b123c57756e884237ba41118de9d5890ed2a926e5b9299ee5bc97bd8bb1",
    "3dd042e6daf77fe348f1c7f835c71d255da10b0ab6d49fa44727be87149852bd",
];
const G_GAMMAS: [(&str, &str); 4] = [
    (
        "7613df0eb52e8ebf091e96ecd2a7d883ca57fafb3cd1f44c82a7efe30ae77e71",
        "84c5ee9ec9f2606a14014fd2bfa11cd6d55ee79f460eb14cce6ccd52a927de21",
    ),
    (
        "7b77e86782ccd597153b1c73cc3d8208044dbe3dbc41407e7bd89b233cd5f49",
        "22ba50e3f56b28775081daa044ce7d1026edf27b0d7b3d7e978dc9654e4a1306",
    ),
    (
        "b3f1091c4a925527e7c4489fff237f6ace6e0b01edcd9045ed80a9e13d0b3982",
        "2a592a30ba422927b81467a988734d3169332d56acad07e55e1a06e41f80fcf",
    ),
    (
        "c344775982c830d8cad15465ca5726d34be38683614320bc2451e787cc274d8d",
        "32e5a1d2fe702099efe2137423ef0d341060017cb98f1c1f02e3197b49074bba",
    ),
];
const S: &str = "483e9abd368b17f71043b939c534c305799490ed6b8a85da11c66ff077fbe718";
const RX: &str = "bc0c1fe463764cc4e574ac6db5204c0a82e21f1ae9ccd57cdafda9bef3a92ab2";
const YX: &str = "2730ded5fe68517c1380c275910d62e3b1f36b5f9eff25242cc2af8fdd0d4748";
const YY: &str = "86f2095841ba10b3dd3e81020ee10204903d15952a9c512b7c0f1a60645985ff";
const M: &str = "be8f3353164ce61bba291a78d3bf2c6b3295cbb094238529229a67ac2429f5c0";
const MESSAGE: [u8; 4] = [79, 77, 69, 82];

fn hx(s: &str) -> Vec<u8> {
    let padded = if s.len() % 2 == 1 { format!("0{}", s) } else { s.to_string() };
    (0..padded.len() / 2)
        .map(|i| u8::from_str_radix(&padded[2 * i..2 * i + 2], 16).unwrap())
        .collect()
}

fn fe(s: &str) -> Scalar {
    fe_from_mpz(&mint_from_bytes(&hx(s)))
}

fn pt(x: &str, y: &str) -> Point {
    point_from_xy(&hx(x), &hx(y)).unwrap()
}

fn zero() -> Scalar {
    fe_from_mpz(&mint_from_bytes(&[]))
}

#[test]
fn test_verify() {
    let m: Scalar = fe(M);
    let mut p = Party::new(0, 1);
    p.state = PartyState::Fin;
    p.y = Some(pt(YX, YY));
    p.sign_s = Some(fe(S));
    p.sign_rx = Some(fe(RX));

    assert_eq!(true, p.verify(&m));
}

#[test]
fn test_phase3() {
    let n: usize = 4;
    let parties: Vec<Party> = (0..n)
        .map(|i| {
            let mut p = Party::new(i, 4);
            p.y = Some(pt(YX, YY));
            p.ki = Some(fe(KS[i]));
            p.delta_i = Some(fe(DELTAS[i]));
            p.sigma_i = Some(fe(SIGMAS[i]));
            p.gri = Some(pt(G_GAMMAS[i].0, G_GAMMAS[i].1));
            p.grs = (0..n).map(|j| pt(G_GAMMAS[j].0, G_GAMMAS[j].1)).collect();
            let mut deltas: Vec<Option<Mint>> = vec![None; n];
            deltas[i] = Some(fe_to_mpz(&p.delta_i.clone().unwrap()));
            p.state = PartyState::BroadcastingDelta { deltas };
            p
        })
        .collect();

    let mut gg = Etude { n, parties };

    gg.phase3_broadcast_delta().unwrap();
    gg.parties.iter().for_each(|p| assert_eq!(p.get_state_name(), "CalculatingLocalSign"));

    gg.phase4_local_sign(&MESSAGE).unwrap();
    gg.parties.iter().for_each(|p| assert_eq!(p.get_state_name(), "BroadcastingSi"));

    gg.phase5_gather_signatures().unwrap();
    gg.parties.iter().for_each(|p| assert_eq!(p.get_state_name(), "Fin"));

    assert_eq!(true, gg.verify_r());

    assert_eq!(true, gg.verify_signature(&MESSAGE));
}

#[test]
fn test_phase0() {
    let n: usize = 4;
    let y: Point = pt(YX, YY);
    let g_gammas: Vec<Point> = (0..n).map(|j| pt(G_GAMMAS[j].0, G_GAMMAS[j].1)).collect();

    let parties: Vec<Party> = (0..n)
        .map(|i| {
            let mut p = Party::new(i, n);
            p.ui = Some(fe(WS[i]));
            p.ki = Some(fe(KS[i]));
            p.ri = Some(fe(GAMMAS[i]));

            let gui = pt_mul(&p.g, &p.ui.clone().unwrap());
            let gri = pt_mul(&p.g, &p.ri.clone().unwrap());

            p.gui = Some(gui.clone());
            p.gri = Some(gri.clone());

            let mut gus: Vec<Option<Point>> = vec![None; n];
            let mut grs: Vec<Option<Point>> = vec![None; n];
            gus[i] = Some(gui.clone());
            grs[i] = Some(gri.clone());
            p.state = PartyState::BroadcastingGr { gus, grs };
            p
        })
        .collect();

    let mut gg = Etude { n, parties };

    gg.phase1_broadcast_gr().unwrap();
    gg.parties.iter().for_each(|p| assert_eq!(p.get_state_name(), "Mta"));
    for i in 0..n {
        assert_eq!(y, gg.parties[i].y.clone().unwrap());
        for j in 0..n {
            assert_eq!(g_gammas[j], gg.parties[i].grs[j]);
        }
    }

    gg.phase2_exchange_mta().unwrap();
    gg.parties.iter().for_each(|p| assert_eq!(p.get_state_name(), "BroadcastingDelta"));
    {
        let d0 = DELTAS.iter().fold(zero(), |acc, s| scalar_add(&acc, &fe(s)));
        let d1 = gg.parties.iter().fold(zero(), |acc, p| {
            scalar_add(&acc, &p.delta_i.clone().unwrap())
        });
        assert_eq!(d0, d1);
        let s0 = SIGMAS.iter().fold(zero(), |acc, s| scalar_add(&acc, &fe(s)));
        let s1 = gg.parties.iter().fold(zero(), |acc, p| {
            scalar_add(&acc, &p.sigma_i.clone().unwrap())
        });
        assert_eq!(s0, s1);
    }

    gg.phase3_broadcast_delta().unwrap();
    gg.parties.iter().for_each(|p| assert_eq!(p.get_state_name(), "CalculatingLocalSign"));

    gg.phase4_local_sign(&MESSAGE).unwrap();
    gg.parties.iter().for_each(|p| assert_eq!(p.get_state_name(), "BroadcastingSi"));

    gg.phase5_gather_signatures().unwrap();
    gg.parties.iter().for_each(|p| assert_eq!(p.get_state_name(), "Fin"));

    assert_eq!(true, gg.verify_r());

    assert_eq!(true, gg.verify_signature(&MESSAGE));
}

#[test]
fn test_full_phases() {
    let message = "Miku-san maji tenshi!".as_bytes();
    let mut gg = Etude::new(4);
    gg.sign(&message).unwrap();
    assert_eq!(true, gg.verify_r());
    assert_eq!(true, gg.verify_signature(&message));
}

#[test]
fn premature_local_signing_is_a_state_error() {
    let mut gg = Etude::new(3);
    gg.phase1_begin().unwrap();
    gg.phase1_broadcast_gr().unwrap();
    gg.phase2_exchange_mta().unwrap();

    // Deliver only one of the two missing deltas to party 0, then try to
    // advance it to the local signature anyway.
    let d1 = fe_to_mpz(&gg.parties[1].delta_i.clone().unwrap());
    gg.parties[0].on_delta_i(1, d1).unwrap();
    assert_eq!("BroadcastingDelta", gg.parties[0].get_state_name());

    let m = digest_message(&MESSAGE);
    let r = gg.parties[0].calc_local_signature(&m);
    assert_eq!(Err(ProtocolError::StateError), r);
}

#[test]
fn repeated_begin_is_a_state_error() {
    let mut p = Party::new(0, 2);
    p.begin().unwrap();
    assert_eq!(Err(ProtocolError::StateError), p.begin());
}

#[test]
fn duplicate_commitment_is_rejected() {
    let mut gg = Etude::new(3);
    gg.phase1_begin().unwrap();
    let gu = gg.parties[1].gui.clone().unwrap();
    let gr = gg.parties[1].gri.clone().unwrap();
    gg.parties[0].on_gri(1, gu.clone(), gr.clone()).unwrap();
    let r = gg.parties[0].on_gri(1, gu, gr);
    assert_eq!(Err(ProtocolError::SlotAlreadyFilled), r);
}

#[test]
fn digest_reduces_sha256_modulo_group_order() {
    assert_eq!(fe(M), digest_message(&MESSAGE));
}

#[test]
fn reduction_wraps_at_group_order() {
    // The group order plus five reduces to five.
    let over = "fffffffffffffffffffffffffffffffebaaedce6af48a03bbfd25e8cd0364146";
    assert_eq!(fe("05"), fe(over));
}

#[test]
fn scalar_addition_is_exact_below_the_order() {
    assert_eq!(fe("05"), scalar_add(&fe("02"), &fe("03")));
}
