//! The per-party signing state machine and the in-process driver.  Each
//! party walks a one-way chain of seven states: nonce broadcast, pairwise
//! MtA exchanges, delta reconciliation, the local signature, signature
//! aggregation.  Every handler states exactly when it succeeds, which
//! error it returns otherwise, and how the state advances; the state tag
//! never moves backwards.

use crate::bigint::{be, mint_add, mint_mul, mint_zero, Mint};
use crate::mta;
use crate::mta::RawCiphertext;
use crate::cipher::Enc;
use crate::point::{
    generator, generator_bytes, get_x, pt_add, pt_add_bytes, pt_mul, pt_mul_bytes, pt_sum, Point,
};
use crate::scalar::{
    digest_message, eq_bytes, fe_from_mpz, fe_to_mpz, mod_q, q_value, scalar_add, scalar_invert,
    scalar_mul, scalar_random, Scalar,
};
use crate::mta::lemma_mta_exchange;
use crate::sums::{delta_row, sum_ints};
use crate::ProtocolError;
use vstd::arithmetic::div_mod::{lemma_add_mod_noop, lemma_small_mod};
use vstd::prelude::*;

verus! {

/// The Paillier modulus width used for the pairwise exchanges.
pub const MTA_BITS: usize = 2047;

/// The phase of one signing party.
#[derive(Debug)]
pub enum PartyState {
    Void,
    BroadcastingGr { gus: Vec<Option<Point>>, grs: Vec<Option<Point>> },
    Mta { kr: Vec<mta::Party>, rk: Vec<mta::Party>, ku: Vec<mta::Party>, uk: Vec<mta::Party> },
    BroadcastingDelta { deltas: Vec<Option<Mint>> },
    CalculatingLocalSign { delta: Scalar },
    BroadcastingSi { sis: Vec<Option<Scalar>> },
    Fin,
}

/// The position of a state in the one-way chain.
pub open spec fn phase_index(s: &PartyState) -> int {
    match s {
        PartyState::Void => 0,
        PartyState::BroadcastingGr { .. } => 1,
        PartyState::Mta { .. } => 2,
        PartyState::BroadcastingDelta { .. } => 3,
        PartyState::CalculatingLocalSign { .. } => 4,
        PartyState::BroadcastingSi { .. } => 5,
        PartyState::Fin => 6,
    }
}

pub open spec fn opt_scalar_wf(o: Option<Scalar>) -> bool {
    o matches Some(s) ==> s.wf()
}

pub open spec fn opt_point_wf(o: Option<Point>) -> bool {
    o matches Some(p) ==> p.wf()
}

pub open spec fn opt_points_wf(s: Seq<Option<Point>>) -> bool {
    forall|l: int| 0 <= l < s.len() ==> opt_point_wf(#[trigger] s[l])
}

pub open spec fn points_wf(s: Seq<Point>) -> bool {
    forall|l: int| 0 <= l < s.len() ==> (#[trigger] s[l]).wf()
}

/// Whether every slot of a broadcast collector is filled.
pub open spec fn opt_filled<T>(s: Seq<Option<T>>) -> bool {
    forall|l: int| 0 <= l < s.len() ==> (#[trigger] s[l]) is Some
}

/// The encodings of a list of points.
pub open spec fn points_bytes(s: Seq<Point>) -> Seq<Seq<u8>> {
    Seq::new(s.len(), |l: int| s[l]@)
}

/// The encodings behind a filled collector of points.
pub open spec fn opt_points_bytes(s: Seq<Option<Point>>) -> Seq<Seq<u8>> {
    Seq::new(s.len(), |l: int| s[l]->Some_0@)
}

/// The values behind a filled collector of integers.
pub open spec fn opt_mint_vals(s: Seq<Option<Mint>>) -> Seq<int> {
    Seq::new(s.len(), |l: int| s[l]->Some_0@)
}

/// The values behind a filled collector of scalars.
pub open spec fn opt_scalar_vals(s: Seq<Option<Scalar>>) -> Seq<int> {
    Seq::new(s.len(), |l: int| s[l]->Some_0@ as int)
}

pub open spec fn opt_mints_wf(s: Seq<Option<Mint>>) -> bool {
    forall|l: int| 0 <= l < s.len() ==> ((#[trigger] s[l]) matches Some(d) ==> d.wf())
}

pub open spec fn opt_scalars_wf(s: Seq<Option<Scalar>>) -> bool {
    forall|l: int| 0 <= l < s.len() ==> ((#[trigger] s[l]) matches Some(d) ==> d.wf())
}

/// A row of pairwise exchange endpoints, all holding the same secret.
pub open spec fn mta_vec_wf(s: Seq<mta::Party>, m: int) -> bool {
    forall|l: int| 0 <= l < s.len() ==> (#[trigger] s[l]).inv() && s[l].m@ == m
}

/// Party `i`'s contributions to a reconciliation sum, from the two rows
/// that share products with every peer: the two shares against each peer,
/// and the product of its own two secrets on the diagonal.
pub open spec fn mta_delta_row(kr: Seq<mta::Party>, rk: Seq<mta::Party>, i: int) -> Seq<int> {
    Seq::new(
        kr.len(),
        |l: int|
            if l == i {
                kr[l].m@ * rk[l].m@
            } else {
                kr[l].share() + rk[l].share()
            },
    )
}

/// One signing participant.
#[derive(Debug)]
pub struct Party {
    pub n: usize,
    pub i: usize,
    pub g: Point,
    pub ui: Option<Scalar>,
    pub gui: Option<Point>,
    pub y: Option<Point>,
    pub ki: Option<Scalar>,
    pub ri: Option<Scalar>,
    pub gri: Option<Point>,
    pub grs: Vec<Point>,
    pub delta_i: Option<Scalar>,
    pub sigma_i: Option<Scalar>,
    pub sign_r: Option<Point>,
    pub sign_rx: Option<Scalar>,
    pub sign_si: Option<Scalar>,
    pub sign_s: Option<Scalar>,
    pub state: PartyState,
}

impl Party {
    pub open spec fn wf(&self) -> bool {
        &&& 1 <= self.n
        &&& self.i < self.n
        &&& self.g@ == generator_bytes()
        &&& opt_scalar_wf(self.ui) && opt_scalar_wf(self.ki) && opt_scalar_wf(self.ri)
        &&& opt_scalar_wf(self.delta_i) && opt_scalar_wf(self.sigma_i)
        &&& opt_scalar_wf(self.sign_rx) && opt_scalar_wf(self.sign_si) && opt_scalar_wf(
            self.sign_s,
        )
        &&& opt_point_wf(self.gui) && opt_point_wf(self.gri) && opt_point_wf(self.y)
            && opt_point_wf(self.sign_r)
        &&& points_wf(self.grs@)
        &&& match self.state {
            PartyState::Void => true,
            PartyState::BroadcastingGr { gus, grs } => {
                &&& gus@.len() == self.n && grs@.len() == self.n
                &&& opt_points_wf(gus@) && opt_points_wf(grs@)
                &&& self.ki is Some && self.ri is Some && self.ui is Some
            },
            PartyState::Mta { kr, rk, ku, uk } => {
                &&& kr@.len() == self.n && rk@.len() == self.n && ku@.len() == self.n && uk@.len()
                    == self.n
                &&& self.ki is Some && self.ri is Some && self.ui is Some
                &&& self.grs@.len() == self.n
                &&& mta_vec_wf(kr@, self.ki->Some_0@ as int)
                &&& mta_vec_wf(ku@, self.ki->Some_0@ as int)
                &&& mta_vec_wf(rk@, self.ri->Some_0@ as int)
                &&& mta_vec_wf(uk@, self.ui->Some_0@ as int)
            },
            PartyState::BroadcastingDelta { deltas } => {
                &&& deltas@.len() == self.n
                &&& opt_mints_wf(deltas@)
                &&& self.ki is Some && self.sigma_i is Some
                &&& self.grs@.len() == self.n
            },
            PartyState::CalculatingLocalSign { delta } => {
                &&& delta.wf()
                &&& self.ki is Some && self.sigma_i is Some
                &&& self.grs@.len() == self.n
            },
            PartyState::BroadcastingSi { sis } => {
                &&& sis@.len() == self.n
                &&& opt_scalars_wf(sis@)
            },
            PartyState::Fin => true,
        }
    }

    /// Everything but the state tag and the fields a transition writes.
    pub open spec fn same_identity(&self, other: &Party) -> bool {
        &&& self.n == other.n
        &&& self.i == other.i
        &&& self.g == other.g
        &&& self.ui == other.ui
        &&& self.ki == other.ki
        &&& self.ri == other.ri
        &&& self.gui == other.gui
        &&& self.gri == other.gri
    }

    pub fn get_state_name(&self) -> (r: &'static str)
        ensures
            r@ == state_name_spec(&self.state),
    {
        match self.state {
            PartyState::Void => "Void",
            PartyState::BroadcastingGr { .. } => "BroadcastingGr",
            PartyState::Mta { .. } => "Mta",
            PartyState::BroadcastingDelta { .. } => "BroadcastingDelta",
            PartyState::CalculatingLocalSign { .. } => "CalculatingLocalSign",
            PartyState::BroadcastingSi { .. } => "BroadcastingSi",
            PartyState::Fin => "Fin",
        }
    }

    pub fn new(i: usize, n: usize) -> (r: Party)
        requires
            1 <= n,
            i < n,
        ensures
            r.wf(),
            r.state is Void,
            r.n == n,
            r.i == i,
            r.ui is None && r.gui is None && r.y is None,
            r.ki is None && r.ri is None && r.gri is None,
            r.delta_i is None && r.sigma_i is None,
            r.sign_r is None && r.sign_rx is None && r.sign_si is None && r.sign_s is None,
            r.grs@.len() == 0,
    {
        Party {
            g: generator(),
            n,
            i,
            ui: None,
            gui: None,
            y: None,
            ki: None,
            ri: None,
            gri: None,
            grs: Vec::new(),
            delta_i: None,
            sigma_i: None,
            sign_r: None,
            sign_rx: None,
            sign_si: None,
            sign_s: None,
            state: PartyState::Void,
        }
    }

    /// Draws the key share and the two nonces, commits to the nonce point,
    /// and opens the collectors for the first broadcast.
    pub fn begin(&mut self) -> (r: Result<(), ProtocolError>)
        requires
            old(self).wf(),
        ensures
            final(self).wf(),
            final(self).n == old(self).n,
            final(self).i == old(self).i,
            phase_index(&final(self).state) >= phase_index(&old(self).state),
            r is Ok <==> old(self).state is Void,
            r is Err ==> *final(self) == *old(self) && r == Err::<(), ProtocolError>(
                ProtocolError::StateError,
            ),
            r is Ok ==> {
                &&& final(self).state matches PartyState::BroadcastingGr { gus, grs } && {
                    &&& gus@.len() == old(self).n && grs@.len() == old(self).n
                    &&& gus@[old(self).i as int] matches Some(pu) && pu@
                        == final(self).gui->Some_0@
                    &&& grs@[old(self).i as int] matches Some(pg) && pg@
                        == final(self).gri->Some_0@
                    &&& forall|l: int|
                        0 <= l < old(self).n && l != old(self).i ==> (#[trigger] gus@[l]) is None
                    &&& forall|l: int|
                        0 <= l < old(self).n && l != old(self).i ==> (#[trigger] grs@[l]) is None
                }
                &&& final(self).ki matches Some(k) && 0 < k@ < q_value()
                &&& final(self).ri matches Some(rr) && 0 < rr@ < q_value()
                &&& final(self).ui matches Some(u) && 0 < u@ < q_value()
                &&& final(self).gri matches Some(p) && p@ == pt_mul_bytes(
                    generator_bytes(),
                    final(self).ri->Some_0@,
                )
                &&& final(self).gui matches Some(p2) && p2@ == pt_mul_bytes(
                    generator_bytes(),
                    final(self).ui->Some_0@,
                )
            },
    {
        match self.state {
            PartyState::Void => {},
            _ => {
                return Err(ProtocolError::StateError);
            },
        }
        let n = self.n;
        let i = self.i;
        let ui = scalar_random();
        let ki = scalar_random();
        let ri = scalar_random();
        let gri = pt_mul(&self.g, &ri);
        let gui = pt_mul(&self.g, &ui);
        let mut gus: Vec<Option<Point>> = none_points(n);
        let mut grs: Vec<Option<Point>> = none_points(n);
        gus.set(i, Some(gui.clone()));
        grs.set(i, Some(gri.clone()));
        self.ui = Some(ui);
        self.ki = Some(ki);
        self.ri = Some(ri);
        self.gri = Some(gri);
        self.gui = Some(gui);
        self.state = PartyState::BroadcastingGr { gus, grs };
        Ok(())
    }

    /// Records peer `j`'s key-share point and nonce commitment.  When the
    /// collectors become full, aggregates the public key, caches the nonce
    /// points, and opens the pairwise exchange rows.
    pub fn on_gri(&mut self, j: usize, gu: Point, gr: Point) -> (r: Result<(), ProtocolError>)
        requires
            old(self).wf(),
            j < old(self).n,
            gu.wf(),
            gr.wf(),
        ensures
            final(self).wf(),
            final(self).n == old(self).n,
            final(self).i == old(self).i,
            final(self).ki == old(self).ki,
            final(self).ri == old(self).ri,
            final(self).ui == old(self).ui,
            final(self).gui == old(self).gui,
            final(self).gri == old(self).gri,
            final(self).delta_i == old(self).delta_i,
            final(self).sigma_i == old(self).sigma_i,
            final(self).sign_r == old(self).sign_r,
            final(self).sign_rx == old(self).sign_rx,
            final(self).sign_si == old(self).sign_si,
            final(self).sign_s == old(self).sign_s,
            phase_index(&final(self).state) >= phase_index(&old(self).state),
            !(old(self).state is BroadcastingGr) ==> *final(self) == *old(self) && r == Err::<
                (),
                ProtocolError,
            >(ProtocolError::StateError),
            old(self).state matches PartyState::BroadcastingGr { gus, grs } ==> {
                if grs@[j as int] is Some {
                    &&& *final(self) == *old(self)
                    &&& r == Err::<(), ProtocolError>(ProtocolError::SlotAlreadyFilled)
                } else {
                    &&& r is Ok
                    &&& {
                        let gus2 = gus@.update(j as int, Some(gu));
                        let grs2 = grs@.update(j as int, Some(gr));
                        if opt_filled(gus2) && opt_filled(grs2) {
                            &&& final(self).state is Mta
                            &&& final(self).y matches Some(y) && y@ == pt_sum(
                                opt_points_bytes(gus2),
                            )
                            &&& points_bytes(final(self).grs@) == opt_points_bytes(grs2)
                            &&& final(self).grs@.len() == old(self).n
                        } else {
                            &&& final(self).state matches PartyState::BroadcastingGr {
                                gus: g2,
                                grs: r2,
                            } && g2@ == gus2 && r2@ == grs2
                            &&& final(self).y == old(self).y
                            &&& final(self).grs == old(self).grs
                        }
                    }
                }
            },
    {
        match &mut self.state {
            PartyState::BroadcastingGr { gus, grs } => {
                if grs[j].is_some() {
                    return Err(ProtocolError::SlotAlreadyFilled);
                }
                gus.set(j, Some(gu));
                grs.set(j, Some(gr));
            },
            _ => {
                return Err(ProtocolError::StateError);
            },
        }
        let complete = match &self.state {
            PartyState::BroadcastingGr { gus, grs } => {
                let a = all_filled_points(gus);
                let b = all_filled_points(grs);
                a && b
            },
            _ => vstd::pervasive::unreached(),
        };
        if !complete {
            return Ok(());
        }
        let (y, grsv) = match &self.state {
            PartyState::BroadcastingGr { gus, grs } => {
                let y = sum_points_opt(gus);
                let grsv = unwrap_points(grs);
                (y, grsv)
            },
            _ => vstd::pervasive::unreached(),
        };
        self.y = Some(y);
        self.grs = grsv;
        let kim = match &self.ki {
            Some(s) => fe_to_mpz(s),
            None => vstd::pervasive::unreached(),
        };
        let rim = match &self.ri {
            Some(s) => fe_to_mpz(s),
            None => vstd::pervasive::unreached(),
        };
        let uim = match &self.ui {
            Some(s) => fe_to_mpz(s),
            None => vstd::pervasive::unreached(),
        };
        let n = self.n;
        let kr = make_parties(n, &kim);
        let rk = make_parties(n, &rim);
        let ku = make_parties(n, &kim);
        let uk = make_parties(n, &uim);
        self.state = PartyState::Mta { kr, rk, ku, uk };
        Ok(())
    }
}

/// A collector of `n` empty point slots.
fn none_points(n: usize) -> (r: Vec<Option<Point>>)
    ensures
        r@.len() == n,
        forall|l: int| 0 <= l < n ==> (#[trigger] r@[l]) is None,
{
    let mut v: Vec<Option<Point>> = Vec::new();
    let mut l: usize = 0;
    while l < n
        invariant
            l <= n,
            v@.len() == l,
            forall|x: int| 0 <= x < l ==> (#[trigger] v@[x]) is None,
        decreases n - l,
    {
        v.push(None);
        l += 1;
    }
    v
}

/// Whether every slot of a point collector is filled.
fn all_filled_points(v: &Vec<Option<Point>>) -> (r: bool)
    ensures
        r == opt_filled(v@),
{
    let mut l: usize = 0;
    while l < v.len()
        invariant
            l <= v@.len(),
            forall|x: int| 0 <= x < l ==> (#[trigger] v@[x]) is Some,
        decreases v@.len() - l,
    {
        if v[l].is_none() {
            return false;
        }
        l += 1;
    }
    true
}

/// The sum of the points in a full collector.
fn sum_points_opt(v: &Vec<Option<Point>>) -> (r: Point)
    requires
        v@.len() >= 1,
        opt_filled(v@),
        opt_points_wf(v@),
    ensures
        r@ == pt_sum(opt_points_bytes(v@)),
        r.wf(),
{
    let ghost s = opt_points_bytes(v@);
    let mut acc = match &v[0] {
        Some(p) => p.clone(),
        None => vstd::pervasive::unreached(),
    };
    let mut l: usize = 1;
    proof {
        assert(s.take(1) =~= seq![s[0]]);
        assert(pt_sum(s.take(1)) == s[0]);
    }
    while l < v.len()
        invariant
            1 <= l <= v@.len(),
            opt_filled(v@),
            opt_points_wf(v@),
            s == opt_points_bytes(v@),
            acc@ == pt_sum(s.take(l as int)),
            acc.wf(),
        decreases v@.len() - l,
    {
        let p = match &v[l] {
            Some(p) => p,
            None => vstd::pervasive::unreached(),
        };
        let acc2 = pt_add(&acc, p);
        proof {
            assert(s.take(l + 1).drop_last() =~= s.take(l as int));
            assert(s.take(l + 1).last() == s[l as int]);
            assert(pt_sum(s.take(l + 1)) == pt_add_bytes(pt_sum(s.take(l as int)), s[l as int]));
        }
        acc = acc2;
        l += 1;
    }
    proof {
        assert(s.take(v@.len() as int) =~= s);
    }
    acc
}

/// The sum of a non-empty list of points.
fn sum_points(v: &Vec<Point>) -> (r: Point)
    requires
        v@.len() >= 1,
        points_wf(v@),
    ensures
        r@ == pt_sum(points_bytes(v@)),
        r.wf(),
{
    let ghost s = points_bytes(v@);
    let mut acc = v[0].clone();
    let mut l: usize = 1;
    proof {
        assert(s.take(1) =~= seq![s[0]]);
        assert(pt_sum(s.take(1)) == s[0]);
    }
    while l < v.len()
        invariant
            1 <= l <= v@.len(),
            points_wf(v@),
            s == points_bytes(v@),
            acc@ == pt_sum(s.take(l as int)),
            acc.wf(),
        decreases v@.len() - l,
    {
        let acc2 = pt_add(&acc, &v[l]);
        proof {
            assert(s.take(l + 1).drop_last() =~= s.take(l as int));
            assert(s.take(l + 1).last() == s[l as int]);
            assert(pt_sum(s.take(l + 1)) == pt_add_bytes(pt_sum(s.take(l as int)), s[l as int]));
        }
        acc = acc2;
        l += 1;
    }
    proof {
        assert(s.take(v@.len() as int) =~= s);
    }
    acc
}

/// The points behind a full collector.
fn unwrap_points(v: &Vec<Option<Point>>) -> (r: Vec<Point>)
    requires
        opt_filled(v@),
        opt_points_wf(v@),
    ensures
        r@.len() == v@.len(),
        points_bytes(r@) == opt_points_bytes(v@),
        points_wf(r@),
{
    let mut out: Vec<Point> = Vec::new();
    let mut l: usize = 0;
    while l < v.len()
        invariant
            l <= v@.len(),
            opt_filled(v@),
            opt_points_wf(v@),
            out@.len() == l,
            forall|x: int| 0 <= x < l ==> (#[trigger] out@[x])@ == v@[x]->Some_0@ && out@[x].wf(),
        decreases v@.len() - l,
    {
        let p = match &v[l] {
            Some(p) => p.clone(),
            None => vstd::pervasive::unreached(),
        };
        out.push(p);
        l += 1;
    }
    proof {
        assert(points_bytes(out@) =~~= opt_points_bytes(v@));
    }
    out
}

/// A row of fresh exchange endpoints seeded with one secret.
fn make_parties(n: usize, m: &Mint) -> (r: Vec<mta::Party>)
    requires
        m.wf(),
        0 <= m@ < q_value(),
    ensures
        r@.len() == n,
        forall|l: int|
            0 <= l < n ==> (#[trigger] r@[l]).inv() && r@[l].m@ == m@ && r@[l].role is Init,
    decreases n,
{
    let mut v: Vec<mta::Party> = Vec::new();
    let mut l: usize = 0;
    while l < n
        invariant
            l <= n,
            m.wf(),
            0 <= m@ < q_value(),
            v@.len() == l,
            forall|x: int|
                0 <= x < l ==> (#[trigger] v@[x]).inv() && v@[x].m@ == m@ && v@[x].role is Init,
        decreases n - l,
    {
        let mc = Mint { neg: m.neg, mag: crate::bigint::clone_bytes(&m.mag) };
        v.push(mta::Party::new(MTA_BITS, mc));
        l += 1;
    }
    v
}

/// The display name of a state.
pub open spec fn state_name_spec(s: &PartyState) -> Seq<char> {
    match s {
        PartyState::Void => "Void"@,
        PartyState::BroadcastingGr { .. } => "BroadcastingGr"@,
        PartyState::Mta { .. } => "Mta"@,
        PartyState::BroadcastingDelta { .. } => "BroadcastingDelta"@,
        PartyState::CalculatingLocalSign { .. } => "CalculatingLocalSign"@,
        PartyState::BroadcastingSi { .. } => "BroadcastingSi"@,
        PartyState::Fin => "Fin"@,
    }
}

} // verus!

use crate::bigint::pow256;
use crate::cipher::{ct_ok, dec_of};

verus! {

/// A collector of `n` empty slots.
fn none_slots<T>(n: usize) -> (r: Vec<Option<T>>)
    ensures
        r@.len() == n,
        forall|l: int| 0 <= l < n ==> (#[trigger] r@[l]) is None,
{
    let mut v: Vec<Option<T>> = Vec::new();
    let mut l: usize = 0;
    while l < n
        invariant
            l <= n,
            v@.len() == l,
            forall|x: int| 0 <= x < l ==> (#[trigger] v@[x]) is None,
        decreases n - l,
    {
        v.push(None);
        l += 1;
    }
    v
}

/// Whether every slot of a collector is filled.
fn all_filled<T>(v: &Vec<Option<T>>) -> (r: bool)
    ensures
        r == opt_filled(v@),
{
    let mut l: usize = 0;
    while l < v.len()
        invariant
            l <= v@.len(),
            forall|x: int| 0 <= x < l ==> (#[trigger] v@[x]) is Some,
        decreases v@.len() - l,
    {
        if v[l].is_none() {
            return false;
        }
        l += 1;
    }
    true
}

impl Party {
    /// All fields but the state tag.
    pub open spec fn same_non_state(&self, other: &Party) -> bool {
        &&& self.same_identity(other)
        &&& self.y == other.y
        &&& self.grs == other.grs
        &&& self.delta_i == other.delta_i
        &&& self.sigma_i == other.sigma_i
        &&& self.sign_r == other.sign_r
        &&& self.sign_rx == other.sign_rx
        &&& self.sign_si == other.sign_si
        &&& self.sign_s == other.sign_s
    }

    /// Opens the four exchanges toward peer `from`: installs fresh Alice
    /// roles and returns the four key-and-ciphertext first messages.
    pub fn on_mta_1(&mut self, from: usize) -> (r: Result<
        Vec<(Enc, RawCiphertext)>,
        ProtocolError,
    >)
        requires
            old(self).wf(),
            from < old(self).n,
        ensures
            final(self).wf(),
            final(self).same_non_state(old(self)),
            phase_index(&final(self).state) >= phase_index(&old(self).state),
            r is Ok <==> old(self).state is Mta,
            r is Err ==> *final(self) == *old(self) && r == Err::<
                Vec<(Enc, RawCiphertext)>,
                ProtocolError,
            >(ProtocolError::StateError),
            old(self).state matches PartyState::Mta { kr, rk, ku, uk } ==> (r matches Ok(v) ==> (
            final(self).state matches PartyState::Mta { kr: kr2, rk: rk2, ku: ku2, uk: uk2 } && {
                &&& v@.len() == 4
                &&& forall|l: int|
                    0 <= l < kr@.len() && l != from ==> kr2@[l] == kr@[l] && rk2@[l] == rk@[l]
                        && ku2@[l] == ku@[l] && uk2@[l] == uk@[l]
                &&& kr2@[from as int].role matches mta::Role::A(a0) && a0.n_val() == v@[0].0@
                    && !a0.fin
                &&& rk2@[from as int].role matches mta::Role::A(a1) && a1.n_val() == v@[1].0@
                    && !a1.fin
                &&& ku2@[from as int].role matches mta::Role::A(a2) && a2.n_val() == v@[2].0@
                    && !a2.fin
                &&& uk2@[from as int].role matches mta::Role::A(a3) && a3.n_val() == v@[3].0@
                    && !a3.fin
                &&& v@[0].0.wf() && v@[0].0@ >= pow256(128) && dec_of(
                    v@[0].0@ as int,
                    v@[0].1@ as int,
                ) == old(self).ki->Some_0@ as int && ct_ok(v@[0].0@ as int, v@[0].1@ as int)
                &&& v@[1].0.wf() && v@[1].0@ >= pow256(128) && dec_of(
                    v@[1].0@ as int,
                    v@[1].1@ as int,
                ) == old(self).ri->Some_0@ as int && ct_ok(v@[1].0@ as int, v@[1].1@ as int)
                &&& v@[2].0.wf() && v@[2].0@ >= pow256(128) && dec_of(
                    v@[2].0@ as int,
                    v@[2].1@ as int,
                ) == old(self).ki->Some_0@ as int && ct_ok(v@[2].0@ as int, v@[2].1@ as int)
                &&& v@[3].0.wf() && v@[3].0@ >= pow256(128) && dec_of(
                    v@[3].0@ as int,
                    v@[3].1@ as int,
                ) == old(self).ui->Some_0@ as int && ct_ok(v@[3].0@ as int, v@[3].1@ as int)
            })),
    {
        match &mut self.state {
            PartyState::Mta { kr, rk, ku, uk } => {
                let mut out: Vec<(Enc, RawCiphertext)> = Vec::new();
                let p0 = &mut kr[from];
                p0.alicization();
                let m0 = p0.as_alice().to_bob();
                out.push(m0);
                let p1 = &mut rk[from];
                p1.alicization();
                let m1 = p1.as_alice().to_bob();
                out.push(m1);
                let p2 = &mut ku[from];
                p2.alicization();
                let m2 = p2.as_alice().to_bob();
                out.push(m2);
                let p3 = &mut uk[from];
                p3.alicization();
                let m3 = p3.as_alice().to_bob();
                out.push(m3);
                Ok(out)
            },
            _ => Err(ProtocolError::StateError),
        }
    }

    /// Answers peer `from`'s four first messages.  The peer's message for
    /// its own nonce row lands in this party's crossed row: its first
    /// component pairs with `rk`, the second with `kr`, the third with
    /// `uk`, the fourth with `ku`.
    pub fn on_mta_2(&mut self, from: usize, inp: Vec<(Enc, RawCiphertext)>) -> (r: Result<
        Vec<RawCiphertext>,
        ProtocolError,
    >)
        requires
            old(self).wf(),
            from < old(self).n,
            inp@.len() == 4,
            forall|k: int| 0 <= k < 4 ==> (#[trigger] inp@[k]).0.wf(),
        ensures
            final(self).wf(),
            final(self).same_non_state(old(self)),
            phase_index(&final(self).state) >= phase_index(&old(self).state),
            !(old(self).state is Mta) ==> *final(self) == *old(self) && r == Err::<
                Vec<RawCiphertext>,
                ProtocolError,
            >(ProtocolError::StateError),
            old(self).state is Mta ==> (r is Ok <==> forall|k: int|
                0 <= k < 4 ==> (#[trigger] inp@[k]).0@ >= pow256(128)),
            old(self).state is Mta ==> (r is Err ==> r == Err::<Vec<RawCiphertext>, ProtocolError>(
                ProtocolError::DecryptionFailure,
            )),
            old(self).state matches PartyState::Mta { kr, rk, ku, uk } ==> (r matches Ok(v) ==> (
            final(self).state matches PartyState::Mta { kr: kr2, rk: rk2, ku: ku2, uk: uk2 } && {
                &&& v@.len() == 4
                &&& forall|l: int|
                    0 <= l < kr@.len() && l != from ==> kr2@[l] == kr@[l] && rk2@[l] == rk@[l]
                        && ku2@[l] == ku@[l] && uk2@[l] == uk@[l]
                &&& rk2@[from as int].role matches mta::Role::B(b0) && b0.fin && -(
                pow256(42) as int) < b0.a@ <= 0 && (ct_ok(inp@[0].0@ as int, inp@[0].1@ as int)
                    ==> dec_of(inp@[0].0@ as int, v@[0]@ as int) == ((old(self).ri->Some_0@
                    * dec_of(inp@[0].0@ as int, inp@[0].1@ as int)) % (inp@[0].0@ as int) + (
                -b0.a@)) % (inp@[0].0@ as int))
                &&& kr2@[from as int].role matches mta::Role::B(b1) && b1.fin && -(
                pow256(42) as int) < b1.a@ <= 0 && (ct_ok(inp@[1].0@ as int, inp@[1].1@ as int)
                    ==> dec_of(inp@[1].0@ as int, v@[1]@ as int) == ((old(self).ki->Some_0@
                    * dec_of(inp@[1].0@ as int, inp@[1].1@ as int)) % (inp@[1].0@ as int) + (
                -b1.a@)) % (inp@[1].0@ as int))
                &&& uk2@[from as int].role matches mta::Role::B(b2) && b2.fin && -(
                pow256(42) as int) < b2.a@ <= 0 && (ct_ok(inp@[2].0@ as int, inp@[2].1@ as int)
                    ==> dec_of(inp@[2].0@ as int, v@[2]@ as int) == ((old(self).ui->Some_0@
                    * dec_of(inp@[2].0@ as int, inp@[2].1@ as int)) % (inp@[2].0@ as int) + (
                -b2.a@)) % (inp@[2].0@ as int))
                &&& ku2@[from as int].role matches mta::Role::B(b3) && b3.fin && -(
                pow256(42) as int) < b3.a@ <= 0 && (ct_ok(inp@[3].0@ as int, inp@[3].1@ as int)
                    ==> dec_of(inp@[3].0@ as int, v@[3]@ as int) == ((old(self).ki->Some_0@
                    * dec_of(inp@[3].0@ as int, inp@[3].1@ as int)) % (inp@[3].0@ as int) + (
                -b3.a@)) % (inp@[3].0@ as int))
            })),
    {
        match &mut self.state {
            PartyState::Mta { kr, rk, ku, uk } => {
                let mut out: Vec<RawCiphertext> = Vec::new();
                let p0 = &mut rk[from];
                p0.bobization();
                let c0 = match p0.as_bob().from_alice(&inp[0].0, &inp[0].1) {
                    Ok(c) => c,
                    Err(e) => {
                        return Err(e);
                    },
                };
                out.push(c0);
                let p1 = &mut kr[from];
                p1.bobization();
                let c1 = match p1.as_bob().from_alice(&inp[1].0, &inp[1].1) {
                    Ok(c) => c,
                    Err(e) => {
                        return Err(e);
                    },
                };
                out.push(c1);
                let p2 = &mut uk[from];
                p2.bobization();
                let c2 = match p2.as_bob().from_alice(&inp[2].0, &inp[2].1) {
                    Ok(c) => c,
                    Err(e) => {
                        return Err(e);
                    },
                };
                out.push(c2);
                let p3 = &mut ku[from];
                p3.bobization();
                let c3 = match p3.as_bob().from_alice(&inp[3].0, &inp[3].1) {
                    Ok(c) => c,
                    Err(e) => {
                        return Err(e);
                    },
                };
                out.push(c3);
                Ok(out)
            },
            _ => Err(ProtocolError::StateError),
        }
    }

    /// Absorbs peer `from`'s four responses into this party's Alice rows.
    pub fn on_mta_3(&mut self, from: usize, inp: Vec<RawCiphertext>) -> (r: Result<
        (),
        ProtocolError,
    >)
        requires
            old(self).wf(),
            from < old(self).n,
            inp@.len() == 4,
        ensures
            final(self).wf(),
            final(self).same_non_state(old(self)),
            phase_index(&final(self).state) >= phase_index(&old(self).state),
            !mta3_ready(&old(self).state, from as int) ==> *final(self) == *old(self) && r
                == Err::<(), ProtocolError>(ProtocolError::StateError),
            old(self).state matches PartyState::Mta { kr, rk, ku, uk } ==> (mta3_ready(
                &old(self).state,
                from as int,
            ) ==> {
                &&& (r is Ok <==> dec_of(
                    kr@[from as int].role->A_0.n_val() as int,
                    inp@[0]@ as int,
                ) < pow256(65) && dec_of(
                    rk@[from as int].role->A_0.n_val() as int,
                    inp@[1]@ as int,
                ) < pow256(65) && dec_of(
                    ku@[from as int].role->A_0.n_val() as int,
                    inp@[2]@ as int,
                ) < pow256(65) && dec_of(
                    uk@[from as int].role->A_0.n_val() as int,
                    inp@[3]@ as int,
                ) < pow256(65))
                &&& (r is Err ==> r == Err::<(), ProtocolError>(ProtocolError::DecryptionFailure))
                &&& (r matches Ok(v) ==> (final(self).state matches PartyState::Mta {
                    kr: kr2,
                    rk: rk2,
                    ku: ku2,
                    uk: uk2,
                } && {
                    &&& forall|l: int|
                        0 <= l < kr@.len() && l != from ==> kr2@[l] == kr@[l] && rk2@[l] == rk@[l]
                            && ku2@[l] == ku@[l] && uk2@[l] == uk@[l]
                    &&& kr2@[from as int].role matches mta::Role::A(a0) && a0.fin && a0.a@
                        == dec_of(kr@[from as int].role->A_0.n_val() as int, inp@[0]@ as int)
                    &&& rk2@[from as int].role matches mta::Role::A(a1) && a1.fin && a1.a@
                        == dec_of(rk@[from as int].role->A_0.n_val() as int, inp@[1]@ as int)
                    &&& ku2@[from as int].role matches mta::Role::A(a2) && a2.fin && a2.a@
                        == dec_of(ku@[from as int].role->A_0.n_val() as int, inp@[2]@ as int)
                    &&& uk2@[from as int].role matches mta::Role::A(a3) && a3.fin && a3.a@
                        == dec_of(uk@[from as int].role->A_0.n_val() as int, inp@[3]@ as int)
                }))
            }),
    {
        match &self.state {
            PartyState::Mta { kr, rk, ku, uk } => {
                let ok = kr[from].is_alice() && rk[from].is_alice() && ku[from].is_alice()
                    && uk[from].is_alice();
                if !ok {
                    return Err(ProtocolError::StateError);
                }
            },
            _ => {
                return Err(ProtocolError::StateError);
            },
        }
        match &mut self.state {
            PartyState::Mta { kr, rk, ku, uk } => {
                let p0 = &mut kr[from];
                match p0.as_alice().from_bob(&inp[0]) {
                    Ok(()) => {},
                    Err(e) => {
                        return Err(e);
                    },
                }
                let p1 = &mut rk[from];
                match p1.as_alice().from_bob(&inp[1]) {
                    Ok(()) => {},
                    Err(e) => {
                        return Err(e);
                    },
                }
                let p2 = &mut ku[from];
                match p2.as_alice().from_bob(&inp[2]) {
                    Ok(()) => {},
                    Err(e) => {
                        return Err(e);
                    },
                }
                let p3 = &mut uk[from];
                match p3.as_alice().from_bob(&inp[3]) {
                    Ok(()) => {},
                    Err(e) => {
                        return Err(e);
                    },
                }
                Ok(())
            },
            _ => vstd::pervasive::unreached(),
        }
    }
}

/// Whether the four rows toward a peer all hold Alice roles, so that the
/// peer's responses can be absorbed.
pub open spec fn mta3_ready(s: &PartyState, from: int) -> bool {
    s matches PartyState::Mta { kr, rk, ku, uk } && 0 <= from < kr@.len()
        && kr@[from].role is A && rk@[from].role is A && ku@[from].role is A
        && uk@[from].role is A
}

} // verus!

verus! {

impl Party {
    /// Closes the exchange phase: sums the four rows' shares into the
    /// local delta and sigma, publishes the raw delta in its own slot, and
    /// opens the delta collector.  Does nothing while a peer's exchange is
    /// still unfinished.
    #[verifier::rlimit(50)]
    #[verifier::loop_isolation(false)]
    fn on_mta_fin(&mut self) -> (r: Result<(), ProtocolError>)
        requires
            old(self).wf(),
        ensures
            final(self).wf(),
            final(self).same_identity(old(self)),
            final(self).y == old(self).y,
            final(self).grs == old(self).grs,
            final(self).sign_r == old(self).sign_r,
            final(self).sign_rx == old(self).sign_rx,
            final(self).sign_si == old(self).sign_si,
            final(self).sign_s == old(self).sign_s,
            phase_index(&final(self).state) >= phase_index(&old(self).state),
            r is Ok <==> old(self).state is Mta,
            r is Err ==> *final(self) == *old(self) && r == Err::<(), ProtocolError>(
                ProtocolError::StateError,
            ),
            old(self).state matches PartyState::Mta { kr, rk, ku, uk } ==> (if mta_complete(
                &old(self).state,
                old(self).i as int,
            ) {
                &&& final(self).state matches PartyState::BroadcastingDelta { deltas } && {
                    &&& deltas@.len() == old(self).n
                    &&& deltas@[old(self).i as int] matches Some(d) && d@ == sum_ints(
                        mta_delta_row(kr@, rk@, old(self).i as int),
                    )
                    &&& forall|l: int|
                        0 <= l < deltas@.len() && l != old(self).i ==> (#[trigger] deltas@[l])
                            is None
                }
                &&& final(self).delta_i matches Some(ds) && ds@ == mod_q(
                    sum_ints(mta_delta_row(kr@, rk@, old(self).i as int)),
                )
                &&& final(self).sigma_i matches Some(ss) && ss@ == mod_q(
                    sum_ints(mta_delta_row(ku@, uk@, old(self).i as int)),
                )
            } else {
                *final(self) == *old(self)
            }),
    {
        let i = self.i;
        let n = self.n;
        let pair = match &self.state {
            PartyState::Mta { kr, rk, ku, uk } => {
                let ghost drow = mta_delta_row(kr@, rk@, i as int);
                let ghost srow = mta_delta_row(ku@, uk@, i as int);
                let mut dm = mint_zero();
                let mut sm = mint_zero();
                let mut l: usize = 0;
                proof {
                    assert(drow.take(0) =~= Seq::<int>::empty());
                    assert(srow.take(0) =~= Seq::<int>::empty());
                }
                while l < n
                    invariant
                        l <= n,
                        i < n,
                        kr@.len() == n && rk@.len() == n && ku@.len() == n && uk@.len() == n,
                        forall|x: int|
                            0 <= x < n ==> (#[trigger] kr@[x]).inv() && rk@[x].inv()
                                && ku@[x].inv() && uk@[x].inv(),
                        drow == mta_delta_row(kr@, rk@, i as int),
                        srow == mta_delta_row(ku@, uk@, i as int),
                        dm@ == sum_ints(drow.take(l as int)),
                        sm@ == sum_ints(srow.take(l as int)),
                        dm.wf(),
                        sm.wf(),
                        forall|x: int|
                            0 <= x < l && x != i ==> (#[trigger] kr@[x]).fin() && rk@[x].fin()
                                && ku@[x].fin() && uk@[x].fin(),
                    decreases n - l,
                {
                    if l == i {
                        let t = mint_mul(kr[l].get_secret(), rk[l].get_secret());
                        dm = mint_add(&dm, &t);
                        let t2 = mint_mul(ku[l].get_secret(), uk[l].get_secret());
                        sm = mint_add(&sm, &t2);
                    } else {
                        let rkr = kr[l].get_result();
                        let rrk = rk[l].get_result();
                        let rku = ku[l].get_result();
                        let ruk = uk[l].get_result();
                        match (rkr, rrk, rku, ruk) {
                            (Some(t0), Some(t1), Some(t2), Some(t3)) => {
                                let d = mint_add(t0.1, t1.1);
                                dm = mint_add(&dm, &d);
                                let s2 = mint_add(t2.1, t3.1);
                                sm = mint_add(&sm, &s2);
                            },
                            _ => {
                                proof {
                                    assert(!(kr@[l as int].fin() && rk@[l as int].fin()
                                        && ku@[l as int].fin() && uk@[l as int].fin()));
                                    assert(!mta_complete(&old(self).state, i as int));
                                }
                                return Ok(());
                            },
                        }
                    }
                    proof {
                        assert(drow.take(l + 1).drop_last() =~= drow.take(l as int));
                        assert(srow.take(l + 1).drop_last() =~= srow.take(l as int));
                    }
                    l += 1;
                }
                proof {
                    assert(drow.take(n as int) =~= drow);
                    assert(srow.take(n as int) =~= srow);
                }
                (dm, sm)
            },
            _ => {
                return Err(ProtocolError::StateError);
            },
        };
        let (dm, sm) = pair;
        self.delta_i = Some(fe_from_mpz(&dm));
        self.sigma_i = Some(fe_from_mpz(&sm));
        let mut deltas: Vec<Option<Mint>> = none_slots(n);
        deltas.set(i, Some(dm));
        self.state = PartyState::BroadcastingDelta { deltas };
        Ok(())
    }

    /// Records peer `j`'s published delta.  When the collector becomes
    /// full, reduces the joint delta and moves to the local signature.
    pub fn on_delta_i(&mut self, j: usize, di: Mint) -> (r: Result<(), ProtocolError>)
        requires
            old(self).wf(),
            j < old(self).n,
            di.wf(),
        ensures
            final(self).wf(),
            final(self).same_non_state(old(self)),
            phase_index(&final(self).state) >= phase_index(&old(self).state),
            !(old(self).state is BroadcastingDelta) ==> *final(self) == *old(self) && r == Err::<
                (),
                ProtocolError,
            >(ProtocolError::StateError),
            old(self).state matches PartyState::BroadcastingDelta { deltas } ==> {
                if deltas@[j as int] is Some {
                    &&& *final(self) == *old(self)
                    &&& r == Err::<(), ProtocolError>(ProtocolError::SlotAlreadyFilled)
                } else {
                    &&& r is Ok
                    &&& {
                        let d2 = deltas@.update(j as int, Some(di));
                        if opt_filled(d2) {
                            final(self).state matches PartyState::CalculatingLocalSign { delta }
                                && delta@ == mod_q(sum_ints(opt_mint_vals(d2)))
                        } else {
                            final(self).state matches PartyState::BroadcastingDelta {
                                deltas: dd,
                            } && dd@ == d2
                        }
                    }
                }
            },
    {
        match &mut self.state {
            PartyState::BroadcastingDelta { deltas } => {
                if deltas[j].is_some() {
                    return Err(ProtocolError::SlotAlreadyFilled);
                }
                deltas.set(j, Some(di));
            },
            _ => {
                return Err(ProtocolError::StateError);
            },
        }
        let complete = match &self.state {
            PartyState::BroadcastingDelta { deltas } => all_filled(deltas),
            _ => vstd::pervasive::unreached(),
        };
        if !complete {
            return Ok(());
        }
        let total = match &self.state {
            PartyState::BroadcastingDelta { deltas } => {
                let ghost vals = opt_mint_vals(deltas@);
                let mut acc = mint_zero();
                let mut l: usize = 0;
                proof {
                    assert(vals.take(0) =~= Seq::<int>::empty());
                }
                while l < deltas.len()
                    invariant
                        l <= deltas@.len(),
                        opt_filled(deltas@),
                        opt_mints_wf(deltas@),
                        vals == opt_mint_vals(deltas@),
                        acc@ == sum_ints(vals.take(l as int)),
                        acc.wf(),
                    decreases deltas@.len() - l,
                {
                    let d = match &deltas[l] {
                        Some(d) => d,
                        None => vstd::pervasive::unreached(),
                    };
                    acc = mint_add(&acc, d);
                    proof {
                        assert(vals.take(l + 1).drop_last() =~= vals.take(l as int));
                    }
                    l += 1;
                }
                proof {
                    assert(vals.take(deltas@.len() as int) =~= vals);
                }
                acc
            },
            _ => vstd::pervasive::unreached(),
        };
        self.state = PartyState::CalculatingLocalSign { delta: fe_from_mpz(&total) };
        Ok(())
    }
}

/// Whether every pairwise exchange of a party in the exchange phase has
/// delivered its result.
pub open spec fn mta_complete(s: &PartyState, i: int) -> bool {
    s matches PartyState::Mta { kr, rk, ku, uk } && forall|l: int|
        0 <= l < kr@.len() && l != i ==> (#[trigger] kr@[l]).fin() && rk@[l].fin() && ku@[l].fin()
            && uk@[l].fin()
}

} // verus!

verus! {

/// The standard ECDSA check, over the named point operations: whether the
/// x-coordinate of `(m/s)G + (r/s)Y`, reduced modulo the group order,
/// equals `r`.  `siv` is the inverse of `s` modulo the group order.
pub open spec fn sig_matches(yb: Seq<u8>, rx: nat, siv: nat, m: nat) -> bool {
    rx == mod_q(
        be(
            pt_add_bytes(
                pt_mul_bytes(generator_bytes(), mod_q((m * siv) as int) as nat),
                pt_mul_bytes(yb, mod_q((rx * siv) as int) as nat),
            ).subrange(1, 33),
        ) as int,
    )
}

impl Party {
    /// Derives the ephemeral point from the cached nonce commitments and
    /// the joint delta, and forms the local partial signature.
    #[verifier::loop_isolation(false)]
    pub fn calc_local_signature(&mut self, m: &Scalar) -> (r: Result<(), ProtocolError>)
        requires
            old(self).wf(),
            m.wf(),
        ensures
            final(self).wf(),
            final(self).same_identity(old(self)),
            final(self).y == old(self).y,
            final(self).grs == old(self).grs,
            final(self).delta_i == old(self).delta_i,
            final(self).sigma_i == old(self).sigma_i,
            final(self).sign_s == old(self).sign_s,
            phase_index(&final(self).state) >= phase_index(&old(self).state),
            r is Ok <==> (old(self).state matches PartyState::CalculatingLocalSign { delta }
                && delta@ != 0),
            r is Err ==> *final(self) == *old(self) && r == Err::<(), ProtocolError>(
                ProtocolError::StateError,
            ),
            old(self).state matches PartyState::CalculatingLocalSign { delta } ==> (delta@ != 0
                ==> {
                &&& final(self).state matches PartyState::BroadcastingSi { sis } && {
                    &&& sis@.len() == old(self).n
                    &&& forall|l: int|
                        0 <= l < sis@.len() && l != old(self).i ==> (#[trigger] sis@[l]) is None
                    &&& sis@[old(self).i as int] is Some
                    &&& sis@[old(self).i as int]->Some_0@ == final(self).sign_si->Some_0@
                }
                &&& exists|iv: nat|
                    iv < q_value() && mod_q((iv * delta@) as int) == 1 && (#[trigger] pt_mul_bytes(
                        pt_sum(points_bytes(old(self).grs@)),
                        iv,
                    )) == final(self).sign_r->Some_0@
                &&& final(self).sign_r is Some
                &&& final(self).sign_rx matches Some(rx) && rx@ == mod_q(
                    be(final(self).sign_r->Some_0@.subrange(1, 33)) as int,
                )
                &&& final(self).sign_si matches Some(si) && si@ == mod_q(
                    (m@ * old(self).ki->Some_0@ + final(self).sign_rx->Some_0@ * old(
                        self,
                    ).sigma_i->Some_0@) as int,
                )
            }),
    {
        let delta = match &self.state {
            PartyState::CalculatingLocalSign { delta } => delta.clone(),
            _ => {
                return Err(ProtocolError::StateError);
            },
        };
        proof {
            crate::scalar::lemma_q_bounds();
            lemma_small_mod(delta@, q_value());
        }
        let iv = match scalar_invert(&delta) {
            Some(iv) => iv,
            None => {
                return Err(ProtocolError::StateError);
            },
        };
        let sum_gri = sum_points(&self.grs);
        let sr = pt_mul(&sum_gri, &iv);
        let rx = get_x(&sr);
        let ki = match &self.ki {
            Some(k) => k.clone(),
            None => vstd::pervasive::unreached(),
        };
        let sg = match &self.sigma_i {
            Some(s) => s.clone(),
            None => vstd::pervasive::unreached(),
        };
        let t1 = scalar_mul(m, &ki);
        let t2 = scalar_mul(&rx, &sg);
        let si = scalar_add(&t1, &t2);
        proof {
            crate::scalar::lemma_q_bounds();
            lemma_add_mod_noop(
                (m@ * ki@) as int,
                (rx@ * sg@) as int,
                q_value() as int,
            );
        }
        let n = self.n;
        let i = self.i;
        self.sign_r = Some(sr);
        self.sign_rx = Some(rx);
        self.sign_si = Some(si.clone());
        let mut sis: Vec<Option<Scalar>> = none_slots(n);
        sis.set(i, Some(si));
        self.state = PartyState::BroadcastingSi { sis };
        Ok(())
    }

    /// Records peer `j`'s partial signature.  When the collector becomes
    /// full, sums the joint signature scalar and finishes.
    #[verifier::loop_isolation(false)]
    pub fn on_si(&mut self, j: usize, si: Scalar) -> (r: Result<(), ProtocolError>)
        requires
            old(self).wf(),
            j < old(self).n,
            si.wf(),
        ensures
            final(self).wf(),
            final(self).same_identity(old(self)),
            final(self).y == old(self).y,
            final(self).grs == old(self).grs,
            final(self).delta_i == old(self).delta_i,
            final(self).sigma_i == old(self).sigma_i,
            final(self).sign_r == old(self).sign_r,
            final(self).sign_rx == old(self).sign_rx,
            final(self).sign_si == old(self).sign_si,
            phase_index(&final(self).state) >= phase_index(&old(self).state),
            !(old(self).state is BroadcastingSi) ==> *final(self) == *old(self) && r == Err::<
                (),
                ProtocolError,
            >(ProtocolError::StateError),
            old(self).state matches PartyState::BroadcastingSi { sis } ==> {
                if sis@[j as int] is Some {
                    &&& *final(self) == *old(self)
                    &&& r == Err::<(), ProtocolError>(ProtocolError::SlotAlreadyFilled)
                } else {
                    &&& r is Ok
                    &&& {
                        let s2 = sis@.update(j as int, Some(si));
                        if opt_filled(s2) {
                            final(self).state is Fin && (final(self).sign_s matches Some(s)
                                && s@ == mod_q(sum_ints(opt_scalar_vals(s2))))
                        } else {
                            final(self).state matches PartyState::BroadcastingSi { sis: ss }
                                && ss@ == s2 && final(self).sign_s == old(self).sign_s
                        }
                    }
                }
            },
    {
        match &mut self.state {
            PartyState::BroadcastingSi { sis } => {
                if sis[j].is_some() {
                    return Err(ProtocolError::SlotAlreadyFilled);
                }
                sis.set(j, Some(si));
            },
            _ => {
                return Err(ProtocolError::StateError);
            },
        }
        let complete = match &self.state {
            PartyState::BroadcastingSi { sis } => all_filled(sis),
            _ => vstd::pervasive::unreached(),
        };
        if !complete {
            return Ok(());
        }
        let total = match &self.state {
            PartyState::BroadcastingSi { sis } => {
                let ghost vals = opt_scalar_vals(sis@);
                let mut acc = match &sis[0] {
                    Some(s) => s.clone(),
                    None => vstd::pervasive::unreached(),
                };
                let mut l: usize = 1;
                proof {
                    crate::scalar::lemma_q_bounds();
                    assert(vals.take(1) =~= seq![vals[0]]);
                    assert(vals.take(1).drop_last() =~= Seq::<int>::empty());
                    assert(sum_ints(Seq::<int>::empty()) == 0);
                    assert(sum_ints(vals.take(1)) == vals[0]);
                    lemma_small_mod(sis@[0]->Some_0@, q_value());
                }
                while l < sis.len()
                    invariant
                        1 <= l <= sis@.len(),
                        acc@ == mod_q(sum_ints(vals.take(l as int))),
                        acc.wf(),
                    decreases sis@.len() - l,
                {
                    let s = match &sis[l] {
                        Some(s) => s,
                        None => vstd::pervasive::unreached(),
                    };
                    let acc2 = scalar_add(&acc, s);
                    proof {
                        assert(vals.take(l + 1).drop_last() =~= vals.take(l as int));
                        assert(vals.take(l + 1).last() == vals[l as int]);
                        vstd::arithmetic::div_mod::lemma_add_mod_noop_right(
                            (s@ as int),
                            sum_ints(vals.take(l as int)),
                            q_value() as int,
                        );
                        lemma_small_mod(s@, q_value());
                    }
                    acc = acc2;
                    l += 1;
                }
                proof {
                    assert(vals.take(sis@.len() as int) =~= vals);
                }
                acc
            },
            _ => vstd::pervasive::unreached(),
        };
        self.sign_s = Some(total);
        self.state = PartyState::Fin;
        Ok(())
    }

    /// The standard ECDSA verification of the aggregated signature against
    /// the aggregated public key.
    pub fn verify(&self, m: &Scalar) -> (r: bool)
        requires
            self.wf(),
            m.wf(),
            self.sign_rx is Some,
            self.sign_s is Some,
            self.y is Some,
            self.sign_s->Some_0@ != 0,
        ensures
            exists|siv: nat|
                siv < q_value() && mod_q((siv * self.sign_s->Some_0@) as int) == 1 && r == (
                #[trigger] sig_matches(self.y->Some_0@, self.sign_rx->Some_0@, siv, m@)),
    {
        let rx = match &self.sign_rx {
            Some(rx) => rx,
            None => vstd::pervasive::unreached(),
        };
        let s = match &self.sign_s {
            Some(s) => s,
            None => vstd::pervasive::unreached(),
        };
        let y = match &self.y {
            Some(y) => y,
            None => vstd::pervasive::unreached(),
        };
        proof {
            crate::scalar::lemma_q_bounds();
            lemma_small_mod(s@, q_value());
        }
        let sinv = match scalar_invert(s) {
            Some(iv) => iv,
            None => vstd::pervasive::unreached(),
        };
        let u1 = scalar_mul(m, &sinv);
        let u2 = scalar_mul(rx, &sinv);
        let g_m_s = pt_mul(&self.g, &u1);
        let y_r_u = pt_mul(y, &u2);
        let sum = pt_add(&g_m_s, &y_r_u);
        let rxx = get_x(&sum);
        let same = eq_scalar(rx, &rxx);
        proof {
            assert(same == sig_matches(self.y->Some_0@, self.sign_rx->Some_0@, sinv@, m@));
        }
        same
    }
}

/// Whether two scalars hold the same value.
pub fn eq_scalar(a: &Scalar, b: &Scalar) -> (r: bool)
    requires
        a.wf(),
        b.wf(),
    ensures
        r == (a@ == b@),
{
    let r = a == b;
    proof {
        if a.bytes() == b.bytes() {
            assert(a@ == b@);
        }
        if a@ == b@ {
            crate::bigint::lemma_be_injective(a.bytes(), b.bytes());
        }
    }
    r
}

} // verus!

verus! {

/// Ephemeral-point agreement: parties that cache the same list of nonce
/// commitments and reconcile the same joint delta derive the same
/// ephemeral point, since the inverse of the delta modulo the group order
/// is unique and the point operations are functions of their operands.
pub proof fn lemma_r_agreement(grs: Seq<Seq<u8>>, d: nat, iv1: nat, iv2: nat)
    requires
        iv1 < q_value(),
        iv2 < q_value(),
        mod_q((iv1 * d) as int) == 1,
        mod_q((iv2 * d) as int) == 1,
    ensures
        pt_mul_bytes(pt_sum(grs), iv1) == pt_mul_bytes(pt_sum(grs), iv2),
{
    crate::scalar::lemma_mod_inverse_unique(d as int, iv1 as int, iv2 as int);
}

/// Whether a finished party's signature satisfies the standard ECDSA
/// check against its aggregated public key.
pub open spec fn party_verifies(p: &Party, m: nat) -> bool {
    exists|siv: nat|
        siv < q_value() && mod_q((siv * p.sign_s->Some_0@) as int) == 1 && (#[trigger] sig_matches(
            p.y->Some_0@,
            p.sign_rx->Some_0@,
            siv,
            m,
        ))
}

/// The in-process driver: all parties side by side, with the message
/// routing of the five phases.
pub struct Etude {
    pub n: usize,
    pub parties: Vec<Party>,
}

impl Etude {
    pub open spec fn wf(&self) -> bool {
        &&& 1 <= self.n
        &&& self.parties@.len() == self.n
        &&& forall|l: int|
            0 <= l < self.n ==> (#[trigger] self.parties@[l]).wf() && self.parties@[l].n == self.n
                && self.parties@[l].i == l
    }

    pub fn new(n: usize) -> (r: Etude)
        requires
            1 <= n,
        ensures
            r.wf(),
            r.n == n,
            forall|l: int| 0 <= l < n ==> (#[trigger] r.parties@[l]).state is Void,
    {
        let mut parties: Vec<Party> = Vec::new();
        let mut i: usize = 0;
        while i < n
            invariant
                i <= n,
                parties@.len() == i,
                forall|l: int|
                    0 <= l < i ==> (#[trigger] parties@[l]).wf() && parties@[l].n == n
                        && parties@[l].i == l && parties@[l].state is Void,
            decreases n - i,
        {
            parties.push(Party::new(i, n));
            i += 1;
        }
        Etude { n, parties }
    }

    /// Runs the five phases over the given message.  On success with at
    /// least two parties, all parties hold the same ephemeral point.  On a
    /// fresh session of at least two parties the only possible failure is
    /// the wrong-state error that the local-signature step raises when the
    /// reconciled joint delta is zero; when the run succeeds, every party
    /// finishes with the same joint signature scalar.
    pub fn sign(&mut self, message: &[u8]) -> (r: Result<(), ProtocolError>)
        requires
            old(self).wf(),
        ensures
            final(self).wf(),
            final(self).n == old(self).n,
            r is Ok && 2 <= old(self).n ==> forall|x: int, y: int|
                0 <= x < final(self).n && 0 <= y < final(self).n ==> (#[trigger] final(self).parties@[x]).sign_r is Some
                    && (#[trigger] final(self).parties@[y]).sign_r is Some
                    && final(self).parties@[x].sign_r->Some_0@
                    == final(self).parties@[y].sign_r->Some_0@,
            2 <= old(self).n && all_void(old(self).parties@) ==> (r is Ok || r == Err::<
                (),
                ProtocolError,
            >(ProtocolError::StateError)),
            r is Ok && 2 <= old(self).n && all_void(old(self).parties@) ==> forall|x: int, y: int|
                0 <= x < final(self).n && 0 <= y < final(self).n ==> (#[trigger] final(self).parties@[x]).state is Fin
                    && final(self).parties@[x].sign_s is Some
                    && (#[trigger] final(self).parties@[y]).state is Fin
                    && final(self).parties@[x].sign_s->Some_0@
                    == final(self).parties@[y].sign_s->Some_0@,
    {
        let ghost n = old(self).n as int;
        let ghost staged = 2 <= old(self).n && all_void(old(self).parties@);
        match self.phase1_begin() {
            Ok(()) => {},
            Err(e) => {
                proof {
                    if staged {
                        assert(false);
                    }
                }
                return Err(e);
            },
        }
        let ghost ps1 = self.parties@;
        match self.phase1_broadcast_gr() {
            Ok(()) => {},
            Err(e) => {
                proof {
                    if staged {
                        assert(commits_fresh(ps1));
                        assert(false);
                    }
                }
                return Err(e);
            },
        }
        let ghost ps2 = self.parties@;
        proof {
            if staged {
                assert(all_in_exchange(ps2)) by {
                    assert forall|x: int| 0 <= x < n implies (#[trigger] ps2[x]).state is Mta by {
                        assert(commit_absorbed(&ps2[x], gui_bytes(ps1), gri_bytes(ps1)));
                    }
                }
            }
        }
        match self.phase2_exchange_mta() {
            Ok(()) => {},
            Err(e) => {
                proof {
                    if staged {
                        assert(false);
                    }
                }
                return Err(e);
            },
        }
        let ghost ps3 = self.parties@;
        match self.phase3_broadcast_delta() {
            Ok(()) => {},
            Err(e) => {
                proof {
                    if staged {
                        assert(collectors_fresh(ps3));
                        assert(false);
                    }
                }
                return Err(e);
            },
        }
        let ghost ps4 = self.parties@;
        proof {
            if 2 <= n {
                assert forall|x: int, y: int| 0 <= x < n && 0 <= y < n implies same_signing_input(
                    &ps4[x],
                    &ps4[y],
                ) by {
                    assert(commit_absorbed(&ps2[x], gui_bytes(ps1), gri_bytes(ps1)));
                    assert(commit_absorbed(&ps2[y], gui_bytes(ps1), gri_bytes(ps1)));
                    assert(ps3[x].grs == ps2[x].grs && ps3[y].grs == ps2[y].grs);
                    assert(ps4[x].grs == ps3[x].grs && ps4[y].grs == ps3[y].grs);
                }
            }
        }
        match self.phase4_local_sign(message) {
            Ok(()) => {},
            Err(e) => {
                return Err(e);
            },
        }
        let ghost ps5 = self.parties@;
        match self.phase5_gather_signatures() {
            Ok(()) => {},
            Err(e) => {
                proof {
                    if staged {
                        assert(partials_fresh(ps5));
                        assert(false);
                    }
                }
                return Err(e);
            },
        }
        Ok(())
    }

    /// Every party draws its shares and opens the first collectors.
    #[verifier::loop_isolation(false)]
    pub fn phase1_begin(&mut self) -> (r: Result<(), ProtocolError>)
        requires
            old(self).wf(),
        ensures
            final(self).wf(),
            final(self).n == old(self).n,
            r is Ok ==> commits_fresh(final(self).parties@),
            (forall|x: int| 0 <= x < old(self).n ==> (#[trigger] old(self).parties@[x]).state
                is Void) ==> r is Ok,
    {
        let n = self.n;
        let mut i: usize = 0;
        while i < n
            invariant
                i <= n,
                n == self.n,
                self.wf(),
                forall|x: int| i <= x < n ==> self.parties@[x] == old(self).parties@[x],
                forall|x: int|
                    0 <= x < i ==> ((#[trigger] self.parties@[x]).state
                        matches PartyState::BroadcastingGr { gus, grs } && {
                        &&& self.parties@[x].gui is Some && self.parties@[x].gri is Some
                        &&& gus@.len() == n && grs@.len() == n
                        &&& (gus@[x] matches Some(pu) && pu@ == self.parties@[x].gui->Some_0@)
                        &&& (grs@[x] matches Some(pg) && pg@ == self.parties@[x].gri->Some_0@)
                        &&& forall|l: int| 0 <= l < n && l != x ==> (#[trigger] gus@[l]) is None
                        &&& forall|l: int| 0 <= l < n && l != x ==> (#[trigger] grs@[l]) is None
                    }),
            decreases n - i,
        {
            let p = &mut self.parties[i];
            match p.begin() {
                Ok(()) => {},
                Err(e) => {
                    return Err(e);
                },
            }
            i += 1;
        }
        Ok(())
    }

    /// Routes every party's two committed points to every other party.
    /// On success from freshly opened collectors, every party aggregates
    /// the same public key and caches the same list of nonce points.
    #[verifier::loop_isolation(false)]
    #[verifier::rlimit(100)]
    pub fn phase1_broadcast_gr(&mut self) -> (r: Result<(), ProtocolError>)
        requires
            old(self).wf(),
        ensures
            final(self).wf(),
            final(self).n == old(self).n,
            2 <= old(self).n && commits_fresh(old(self).parties@) ==> r is Ok,
            r is Ok && 2 <= old(self).n && commits_fresh(old(self).parties@) ==> forall|x: int|
                0 <= x < final(self).n ==> commit_absorbed(
                    #[trigger] &final(self).parties@[x],
                    gui_bytes(old(self).parties@),
                    gri_bytes(old(self).parties@),
                ),
    {
        let ghost ps0 = self.parties@;
        let ghost uvs = gui_bytes(ps0);
        let ghost gvs = gri_bytes(ps0);
        let n = self.n;
        proof {
            if commits_fresh(ps0) && 2 <= n {
                assert forall|x: int|
                    0 <= x < n && !delta_full(n as int, x, 0, 0) implies commit_collecting(
                    #[trigger] &self.parties@[x],
                    x,
                    0,
                    0,
                    n as int,
                    uvs,
                    gvs,
                ) by {
                    let gux = ps0[x].state->BroadcastingGr_gus;
                    let grx = ps0[x].state->BroadcastingGr_grs;
                    assert forall|sx: int| 0 <= sx < n implies commit_slot_matches(
                        #[trigger] gux@[sx],
                        sx,
                        x,
                        0,
                        0,
                        uvs,
                    ) by {
                        if sx == x {
                            assert(delta_delivered(sx, x, 0, 0));
                        } else {
                            assert(!delta_delivered(sx, x, 0, 0));
                        }
                    }
                    assert forall|sx: int| 0 <= sx < n implies commit_slot_matches(
                        #[trigger] grx@[sx],
                        sx,
                        x,
                        0,
                        0,
                        gvs,
                    ) by {
                        if sx == x {
                            assert(delta_delivered(sx, x, 0, 0));
                        } else {
                            assert(!delta_delivered(sx, x, 0, 0));
                        }
                    }
                }
                assert forall|x: int| 0 <= x < n implies !delta_full(n as int, x, 0, 0) by {
                    let s0: int = if x == 0 { 1 } else { 0 };
                    assert(!delta_delivered(s0, x, 0, 0));
                }
            }
        }
        let mut i: usize = 0;
        while i < n
            invariant
                i <= n,
                n == self.n,
                self.wf(),
                ps0.len() == n,
                uvs == gui_bytes(ps0),
                gvs == gri_bytes(ps0),
                forall|x: int|
                    0 <= x < n ==> (#[trigger] self.parties@[x]).gui == ps0[x].gui
                        && self.parties@[x].gri == ps0[x].gri,
                commits_fresh(ps0) && 2 <= n ==> forall|x: int|
                    0 <= x < n && !delta_full(n as int, x, i as int, 0) ==> commit_collecting(
                        #[trigger] &self.parties@[x],
                        x,
                        i as int,
                        0,
                        n as int,
                        uvs,
                        gvs,
                    ),
                commits_fresh(ps0) && 2 <= n ==> forall|x: int|
                    0 <= x < n && delta_full(n as int, x, i as int, 0) ==> commit_absorbed(
                        #[trigger] &self.parties@[x],
                        uvs,
                        gvs,
                    ),
            decreases n - i,
        {
            let (gu, gr) = {
                let p = &self.parties[i];
                proof {
                    if commits_fresh(ps0) && 2 <= n {
                        assert(ps0[i as int].gui is Some && ps0[i as int].gri is Some);
                    }
                }
                match (&p.gui, &p.gri) {
                    (Some(a), Some(b)) => (a.clone(), b.clone()),
                    _ => {
                        return Err(ProtocolError::StateError);
                    },
                }
            };
            let mut j: usize = 0;
            while j < n
                invariant
                    j <= n,
                    i < n,
                    n == self.n,
                    self.wf(),
                    gu.wf(),
                    gr.wf(),
                    ps0.len() == n,
                    uvs == gui_bytes(ps0),
                    gvs == gri_bytes(ps0),
                    gu@ == uvs[i as int],
                    gr@ == gvs[i as int],
                    forall|x: int|
                        0 <= x < n ==> (#[trigger] self.parties@[x]).gui == ps0[x].gui
                            && self.parties@[x].gri == ps0[x].gri,
                    commits_fresh(ps0) && 2 <= n ==> forall|x: int|
                        0 <= x < n && !delta_full(n as int, x, i as int, j as int)
                            ==> commit_collecting(
                            #[trigger] &self.parties@[x],
                            x,
                            i as int,
                            j as int,
                            n as int,
                            uvs,
                            gvs,
                        ),
                    commits_fresh(ps0) && 2 <= n ==> forall|x: int|
                        0 <= x < n && delta_full(n as int, x, i as int, j as int)
                            ==> commit_absorbed(#[trigger] &self.parties@[x], uvs, gvs),
                decreases n - j,
            {
                if i != j {
                    let ghost pre = self.parties@;
                    let gu_arg = gu.clone();
                    let gr_arg = gr.clone();
                    let ghost gug = gu_arg;
                    let ghost grg = gr_arg;
                    proof {
                        if commits_fresh(ps0) && 2 <= n {
                            let ii = i as int;
                            let jj = j as int;
                            assert(!delta_delivered(ii, jj, ii, jj));
                            assert(!delta_full(n as int, jj, ii, jj));
                            assert(commit_collecting(&pre[jj], jj, ii, jj, n as int, uvs, gvs));
                            assert(commit_slot_matches(
                                pre[jj].state->BroadcastingGr_grs@[ii],
                                ii,
                                jj,
                                ii,
                                jj,
                                gvs,
                            ));
                        }
                    }
                    let pj = &mut self.parties[j];
                    match pj.on_gri(i, gu_arg, gr_arg) {
                        Ok(()) => {},
                        Err(e) => {
                            proof {
                                if commits_fresh(ps0) && 2 <= n {
                                    assert(false);
                                }
                            }
                            return Err(e);
                        },
                    }
                    proof {
                        if commits_fresh(ps0) && 2 <= n {
                            let ii = i as int;
                            let jj = j as int;
                            lemma_phase1_step(
                                pre,
                                self.parties@,
                                uvs,
                                gvs,
                                n as int,
                                i as int,
                                j as int,
                                gug,
                                grg,
                            );
                        }
                    }
                } else {
                    proof {
                        if commits_fresh(ps0) && 2 <= n {
                            lemma_phase1_stage_eq(
                                self.parties@,
                                uvs,
                                gvs,
                                n as int,
                                i as int,
                                j as int,
                                i as int,
                                j as int + 1,
                            );
                        }
                    }
                }
                j += 1;
            }
            proof {
                if commits_fresh(ps0) && 2 <= n {
                    lemma_phase1_stage_eq(
                        self.parties@,
                        uvs,
                        gvs,
                        n as int,
                        i as int,
                        n as int,
                        i as int + 1,
                        0,
                    );
                }
            }
            i += 1;
        }
        proof {
            if commits_fresh(ps0) && 2 <= n {
                assert forall|x: int| 0 <= x < n implies delta_full(n as int, x, n as int, 0) by {
                    assert forall|s: int| 0 <= s < n implies #[trigger] delta_delivered(
                        s,
                        x,
                        n as int,
                        0,
                    ) by {}
                }
            }
        }
        Ok(())
    }

    /// Runs the four pairwise exchanges for every unordered pair, then
    /// closes the exchange phase for every party.  On success every party
    /// has moved to delta reconciliation, and the local deltas and sigmas
    /// are sound: summed over the parties they agree, modulo the group
    /// order, with the product of the summed nonces and the summed
    /// blinding nonces, and with the product of the summed nonces and the
    /// summed key shares.
    #[verifier::loop_isolation(false)]
    #[verifier::rlimit(100)]
    pub fn phase2_exchange_mta(&mut self) -> (r: Result<(), ProtocolError>)
        requires
            old(self).wf(),
        ensures
            final(self).wf(),
            final(self).n == old(self).n,
            forall|x: int|
                0 <= x < final(self).n ==> (#[trigger] final(self).parties@[x]).grs == old(
                    self,
                ).parties@[x].grs,
            all_in_exchange(old(self).parties@) ==> r is Ok,
            r is Ok ==> deltas_reconcile(final(self).parties@) && collectors_fresh(
                final(self).parties@,
            ),
    {
        let n = self.n;
        let mut i: usize = 0;
        while i < n
            invariant
                i <= n,
                n == self.n,
                self.wf(),
                forall|x: int|
                    0 <= x < n ==> (#[trigger] self.parties@[x]).grs == old(self).parties@[x].grs,
                all_in_exchange(old(self).parties@) ==> all_in_exchange(self.parties@),
                forall|a: int, b: int|
                    0 <= a < b < n && a < i ==> pair_done(
                        &self.parties@[a],
                        &self.parties@[b],
                        a,
                        b,
                    ),
            decreases n - i,
        {
            let mut j: usize = i + 1;
            while j < n
                invariant
                    i < n,
                    i + 1 <= j <= n,
                    n == self.n,
                    self.wf(),
                    forall|x: int|
                        0 <= x < n ==> (#[trigger] self.parties@[x]).grs == old(
                            self,
                        ).parties@[x].grs,
                    all_in_exchange(old(self).parties@) ==> all_in_exchange(self.parties@),
                    forall|a: int, b: int|
                        0 <= a < b < n && (a < i || (a == i && b < j)) ==> pair_done(
                            &self.parties@[a],
                            &self.parties@[b],
                            a,
                            b,
                        ),
                decreases n - j,
            {
                let ghost ps0 = self.parties@;
                let msgs = {
                    let pi = &mut self.parties[i];
                    match pi.on_mta_1(j) {
                        Ok(v) => v,
                        Err(e) => {
                            proof {
                                if all_in_exchange(old(self).parties@) {
                                    assert(ps0[i as int].state is Mta);
                                    assert(false);
                                }
                            }
                            return Err(e);
                        },
                    }
                };
                let ghost ps1 = self.parties@;
                let ghost msv = msgs@;
                let resp = {
                    let pj = &mut self.parties[j];
                    match pj.on_mta_2(i, msgs) {
                        Ok(v) => v,
                        Err(e) => {
                            proof {
                                if all_in_exchange(old(self).parties@) {
                                    assert(ps1[j as int].state is Mta);
                                    assert(false);
                                }
                            }
                            return Err(e);
                        },
                    }
                };
                let ghost ps2 = self.parties@;
                let ghost rsv = resp@;
                proof {
                    let ii = i as int;
                    let jj = j as int;
                    let b0 = ps2[jj].state->Mta_rk@[ii].role->B_0;
                    let b1 = ps2[jj].state->Mta_kr@[ii].role->B_0;
                    let b2 = ps2[jj].state->Mta_uk@[ii].role->B_0;
                    let b3 = ps2[jj].state->Mta_ku@[ii].role->B_0;
                    lemma_mta_exchange(
                        msv[0].0@ as int,
                        ki_val(&ps0[ii]),
                        ri_val(&ps1[jj]),
                        -b0.a@,
                        dec_of(msv[0].0@ as int, rsv[0]@ as int),
                    );
                    lemma_mta_exchange(
                        msv[1].0@ as int,
                        ri_val(&ps0[ii]),
                        ki_val(&ps1[jj]),
                        -b1.a@,
                        dec_of(msv[1].0@ as int, rsv[1]@ as int),
                    );
                    lemma_mta_exchange(
                        msv[2].0@ as int,
                        ki_val(&ps0[ii]),
                        ui_val(&ps1[jj]),
                        -b2.a@,
                        dec_of(msv[2].0@ as int, rsv[2]@ as int),
                    );
                    lemma_mta_exchange(
                        msv[3].0@ as int,
                        ui_val(&ps0[ii]),
                        ki_val(&ps1[jj]),
                        -b3.a@,
                        dec_of(msv[3].0@ as int, rsv[3]@ as int),
                    );
                    assert(mta3_ready(&ps2[ii].state, jj));
                }
                {
                    let pi = &mut self.parties[i];
                    match pi.on_mta_3(j, resp) {
                        Ok(()) => {},
                        Err(e) => {
                            proof {
                                assert(false);
                            }
                            return Err(e);
                        },
                    }
                }
                proof {
                    let ps3 = self.parties@;
                    let ii = i as int;
                    let jj = j as int;
                    let b0 = ps2[jj].state->Mta_rk@[ii].role->B_0;
                    let b1 = ps2[jj].state->Mta_kr@[ii].role->B_0;
                    let b2 = ps2[jj].state->Mta_uk@[ii].role->B_0;
                    let b3 = ps2[jj].state->Mta_ku@[ii].role->B_0;
                    assert(pair_done(&ps3[ii], &ps3[jj], ii, jj));
                    assert forall|a: int, b: int|
                        0 <= a < b < n && (a < i || (a == i && b < j + 1)) implies pair_done(
                        &self.parties@[a],
                        &self.parties@[b],
                        a,
                        b,
                    ) by {
                        if a == ii && b == jj {
                        } else {
                            assert(pair_done(&ps0[a], &ps0[b], a, b));
                            assert(a != jj);
                            if a != ii && b != ii && b != jj {
                                assert(ps3[a] == ps0[a] && ps3[b] == ps0[b]);
                            }
                        }
                    }
                }
                j += 1;
            }
            i += 1;
        }
        let ghost psm = self.parties@;
        let ghost kv = ki_vals(psm);
        let ghost gv = ri_vals(psm);
        let ghost uv = ui_vals(psm);
        let ghost sa = Seq::new(psm.len(), |x: int| Seq::new(psm.len(), |l: int| kr_of(&psm[x])[l].share()));
        let ghost sb = Seq::new(psm.len(), |x: int| Seq::new(psm.len(), |l: int| rk_of(&psm[x])[l].share()));
        let ghost sc = Seq::new(psm.len(), |x: int| Seq::new(psm.len(), |l: int| ku_of(&psm[x])[l].share()));
        let ghost sd = Seq::new(psm.len(), |x: int| Seq::new(psm.len(), |l: int| uk_of(&psm[x])[l].share()));
        let mut l: usize = 0;
        while l < n
            invariant
                l <= n,
                n == self.n,
                self.wf(),
                forall|x: int|
                    0 <= x < n ==> (#[trigger] self.parties@[x]).grs == old(self).parties@[x].grs,
                all_in_exchange(old(self).parties@) ==> all_in_exchange(psm),
                forall|a: int, b: int|
                    0 <= a < b < n ==> pair_done(&psm[a], &psm[b], a, b),
                forall|x: int| l <= x < n ==> self.parties@[x] == psm[x],
                forall|x: int|
                    0 <= x < l ==> (#[trigger] self.parties@[x]).state is BroadcastingDelta
                        && psm[x].state is Mta && self.parties@[x].ki == psm[x].ki
                        && self.parties@[x].ri == psm[x].ri && self.parties@[x].ui == psm[x].ui
                        && self.parties@[x].ki is Some && self.parties@[x].ri is Some
                        && self.parties@[x].ui is Some && (self.parties@[x].delta_i
                        matches Some(d) && d@ == mod_q(sum_ints(delta_row(kv, gv, sa, sb, x))))
                        && (self.parties@[x].sigma_i matches Some(sg) && sg@ == mod_q(
                        sum_ints(delta_row(kv, uv, sc, sd, x))))
                        && (self.parties@[x].state matches PartyState::BroadcastingDelta {
                        deltas,
                    } && deltas@.len() == n && (deltas@[x] matches Some(d0) && mod_q(d0@)
                        == self.parties@[x].delta_i->Some_0@ as int) && (forall|jx: int|
                        0 <= jx < n && jx != x ==> (#[trigger] deltas@[jx]) is None)),
            decreases n - l,
        {
            proof {
                let ll = l as int;
                assert(self.parties@[ll] == psm[ll]);
                assert(psm[ll].wf() && psm[ll].n == n && psm[ll].i == ll);
            }
            let p = &mut self.parties[l];
            match p.on_mta_fin() {
                Ok(()) => {},
                Err(e) => {
                    proof {
                        if all_in_exchange(old(self).parties@) {
                            assert(psm[l as int].state is Mta);
                            assert(false);
                        }
                    }
                    return Err(e);
                },
            }
            proof {
                let ll = l as int;
                if psm[ll].state is Mta {
                    assert(kr_of(&psm[ll]).len() == n);
                    assert(mta_complete(&psm[ll].state, ll)) by {
                        assert forall|x: int| 0 <= x < n && x != ll implies (#[trigger] kr_of(
                            &psm[ll],
                        )[x]).fin() && rk_of(&psm[ll])[x].fin() && ku_of(&psm[ll])[x].fin()
                            && uk_of(&psm[ll])[x].fin() by {
                            if x < ll {
                                assert(pair_done(&psm[x], &psm[ll], x, ll));
                            } else {
                                assert(pair_done(&psm[ll], &psm[x], ll, x));
                            }
                        }
                    }
                    let drow = mta_delta_row(kr_of(&psm[ll]), rk_of(&psm[ll]), ll);
                    let drow2 = delta_row(kv, gv, sa, sb, ll);
                    assert forall|x: int| 0 <= x < n implies drow[x] == drow2[x] by {
                        if x == ll {
                            assert(kr_of(&psm[ll])[x].m@ == psm[ll].ki->Some_0@);
                            assert(rk_of(&psm[ll])[x].m@ == psm[ll].ri->Some_0@);
                        }
                    }
                    assert(drow =~= drow2);
                    let srow = mta_delta_row(ku_of(&psm[ll]), uk_of(&psm[ll]), ll);
                    let srow2 = delta_row(kv, uv, sc, sd, ll);
                    assert forall|x: int| 0 <= x < n implies srow[x] == srow2[x] by {
                        if x == ll {
                            assert(ku_of(&psm[ll])[x].m@ == psm[ll].ki->Some_0@);
                            assert(uk_of(&psm[ll])[x].m@ == psm[ll].ui->Some_0@);
                        }
                    }
                    assert(srow =~= srow2);
                }
            }
            l += 1;
        }
        proof {
            crate::scalar::lemma_q_bounds();
            assert forall|x: int, y: int|
                0 <= x < n && 0 <= y < n && x != y implies #[trigger] (sa[x][y] + sb[y][x])
                == kv[x] * gv[y] by {
                if x < y {
                    assert(pair_done(&psm[x], &psm[y], x, y));
                } else {
                    assert(pair_done(&psm[y], &psm[x], y, x));
                    vstd::arithmetic::mul::lemma_mul_is_commutative(gv[y], kv[x]);
                }
            }
            assert forall|x: int, y: int|
                0 <= x < n && 0 <= y < n && x != y implies #[trigger] (sc[x][y] + sd[y][x])
                == kv[x] * uv[y] by {
                if x < y {
                    assert(pair_done(&psm[x], &psm[y], x, y));
                } else {
                    assert(pair_done(&psm[y], &psm[x], y, x));
                    vstd::arithmetic::mul::lemma_mul_is_commutative(uv[y], kv[x]);
                }
            }
            crate::sums::lemma_delta_soundness(kv, gv, sa, sb);
            crate::sums::lemma_delta_soundness(kv, uv, sc, sd);
            let dvals = crate::sums::deltas_of(kv, gv, sa, sb);
            let svals = crate::sums::deltas_of(kv, uv, sc, sd);
            crate::sums::lemma_sum_mod_q(dvals);
            crate::sums::lemma_sum_mod_q(svals);
            assert(delta_vals(self.parties@) =~= Seq::new(
                dvals.len(),
                |x: int| mod_q(dvals[x]),
            ));
            assert(sigma_vals(self.parties@) =~= Seq::new(
                svals.len(),
                |x: int| mod_q(svals[x]),
            ));
            assert(ki_vals(self.parties@) =~= kv);
            assert(ri_vals(self.parties@) =~= gv);
            assert(ui_vals(self.parties@) =~= uv);
        }
        Ok(())
    }

    /// Routes every party's published delta to every other party.  On
    /// success from freshly opened collectors, every party reconciles the
    /// same joint delta: the sum of all published local deltas, reduced
    /// modulo the group order.
    #[verifier::loop_isolation(false)]
    #[verifier::rlimit(100)]
    pub fn phase3_broadcast_delta(&mut self) -> (r: Result<(), ProtocolError>)
        requires
            old(self).wf(),
        ensures
            final(self).wf(),
            final(self).n == old(self).n,
            forall|x: int|
                0 <= x < final(self).n ==> (#[trigger] final(self).parties@[x]).grs == old(
                    self,
                ).parties@[x].grs,
            2 <= old(self).n && collectors_fresh(old(self).parties@) ==> r is Ok,
            r is Ok && 2 <= old(self).n && collectors_fresh(old(self).parties@) ==> forall|
                x: int,
            |
                0 <= x < final(self).n ==> ((#[trigger] final(self).parties@[x]).state
                    matches PartyState::CalculatingLocalSign { delta } && delta@ == mod_q(
                    sum_ints(delta_vals(old(self).parties@)),
                )),
    {
        let ghost ps0 = self.parties@;
        let ghost ds = delta_vals(ps0);
        let n = self.n;
        proof {
            if collectors_fresh(ps0) && 2 <= n {
                assert forall|x: int|
                    0 <= x < n && !delta_full(n as int, x, 0, 0) implies ((
                #[trigger] self.parties@[x]).state matches PartyState::BroadcastingDelta {
                    deltas,
                } && deltas@.len() == n && (forall|s: int|
                    0 <= s < n ==> delta_slot_matches(#[trigger] deltas@[s], s, x, 0, 0, ds))) by {
                    let dx = ps0[x].state->BroadcastingDelta_deltas;
                    assert forall|s: int| 0 <= s < n implies delta_slot_matches(
                        #[trigger] dx@[s],
                        s,
                        x,
                        0,
                        0,
                        ds,
                    ) by {
                        if s == x {
                            assert(delta_delivered(s, x, 0, 0));
                        } else {
                            assert(!delta_delivered(s, x, 0, 0));
                            assert(dx@[s] is None);
                        }
                    }
                }
                assert forall|x: int| 0 <= x < n implies !delta_full(n as int, x, 0, 0) by {
                    let s0: int = if x == 0 { 1 } else { 0 };
                    assert(!delta_delivered(s0, x, 0, 0));
                }
            }
        }
        let mut i: usize = 0;
        while i < n
            invariant
                i <= n,
                n == self.n,
                self.wf(),
                ps0.len() == n,
                ds == delta_vals(ps0),
                forall|x: int|
                    0 <= x < n ==> (#[trigger] self.parties@[x]).grs == ps0[x].grs
                        && self.parties@[x].delta_i == ps0[x].delta_i,
                collectors_fresh(ps0) && 2 <= n ==> forall|x: int|
                    0 <= x < n && !delta_full(n as int, x, i as int, 0) ==> ((
                    #[trigger] self.parties@[x]).state matches PartyState::BroadcastingDelta {
                        deltas,
                    } && deltas@.len() == n && (forall|s: int|
                        0 <= s < n ==> delta_slot_matches(
                            #[trigger] deltas@[s],
                            s,
                            x,
                            i as int,
                            0,
                            ds,
                        ))),
                collectors_fresh(ps0) && 2 <= n ==> forall|x: int|
                    0 <= x < n && delta_full(n as int, x, i as int, 0) ==> ((
                    #[trigger] self.parties@[x]).state
                        matches PartyState::CalculatingLocalSign { delta } && delta@ == mod_q(
                        sum_ints(ds),
                    )),
            decreases n - i,
        {
            let di = {
                let p = &self.parties[i];
                proof {
                    if collectors_fresh(ps0) && 2 <= n {
                        assert(ps0[i as int].delta_i is Some);
                    }
                }
                match &p.delta_i {
                    Some(d) => d.clone(),
                    None => {
                        return Err(ProtocolError::StateError);
                    },
                }
            };
            let mut j: usize = 0;
            while j < n
                invariant
                    j <= n,
                    i < n,
                    n == self.n,
                    self.wf(),
                    di.wf(),
                    ps0.len() == n,
                    ds == delta_vals(ps0),
                    di@ == ps0[i as int].delta_i->Some_0@,
                    forall|x: int|
                        0 <= x < n ==> (#[trigger] self.parties@[x]).grs == ps0[x].grs
                            && self.parties@[x].delta_i == ps0[x].delta_i,
                    collectors_fresh(ps0) && 2 <= n ==> forall|x: int|
                        0 <= x < n && !delta_full(n as int, x, i as int, j as int) ==> ((
                        #[trigger] self.parties@[x]).state
                            matches PartyState::BroadcastingDelta { deltas } && deltas@.len() == n
                            && (forall|s: int|
                            0 <= s < n ==> delta_slot_matches(
                                #[trigger] deltas@[s],
                                s,
                                x,
                                i as int,
                                j as int,
                                ds,
                            ))),
                    collectors_fresh(ps0) && 2 <= n ==> forall|x: int|
                        0 <= x < n && delta_full(n as int, x, i as int, j as int) ==> ((
                        #[trigger] self.parties@[x]).state
                            matches PartyState::CalculatingLocalSign { delta } && delta@ == mod_q(
                            sum_ints(ds),
                        )),
                decreases n - j,
            {
                if i != j {
                    let m = fe_to_mpz(&di);
                    let ghost mg = m;
                    let ghost pre = self.parties@;
                    proof {
                        if collectors_fresh(ps0) && 2 <= n {
                            let ii = i as int;
                            let jj = j as int;
                            assert(!delta_delivered(ii, jj, ii, jj));
                            assert(!delta_full(n as int, jj, ii, jj));
                            assert(delta_slot_matches(
                                pre[jj].state->BroadcastingDelta_deltas@[ii],
                                ii,
                                jj,
                                ii,
                                jj,
                                ds,
                            ));
                        }
                    }
                    let pj = &mut self.parties[j];
                    match pj.on_delta_i(i, m) {
                        Ok(()) => {},
                        Err(e) => {
                            proof {
                                if collectors_fresh(ps0) && 2 <= n {
                                    assert(false);
                                }
                            }
                            return Err(e);
                        },
                    }
                    proof {
                        if collectors_fresh(ps0) && 2 <= n {
                            let ii = i as int;
                            let jj = j as int;
                            lemma_phase3_step(pre, self.parties@, ps0, ds, n as int, ii, jj, mg);
                        }
                    }
                } else {
                    proof {
                        if collectors_fresh(ps0) && 2 <= n {
                            lemma_phase3_stage_eq(
                                self.parties@,
                                ds,
                                n as int,
                                i as int,
                                j as int,
                                i as int,
                                j as int + 1,
                            );
                        }
                    }
                }
                j += 1;
            }
            proof {
                if collectors_fresh(ps0) && 2 <= n {
                    lemma_phase3_stage_eq(
                        self.parties@,
                        ds,
                        n as int,
                        i as int,
                        n as int,
                        i as int + 1,
                        0,
                    );
                }
            }
            i += 1;
        }
        proof {
            if collectors_fresh(ps0) && 2 <= n {
                assert forall|x: int| 0 <= x < n implies delta_full(n as int, x, n as int, 0) by {
                    assert forall|s: int| 0 <= s < n implies #[trigger] delta_delivered(
                        s,
                        x,
                        n as int,
                        0,
                    ) by {}
                }
            }
        }
        Ok(())
    }

    /// Every party derives the ephemeral point and its partial signature.
    /// On success, any two parties that entered this phase with the same
    /// cached commitment list and the same joint delta leave holding the
    /// same ephemeral point.
    #[verifier::loop_isolation(false)]
    pub fn phase4_local_sign(&mut self, msg: &[u8]) -> (r: Result<(), ProtocolError>)
        requires
            old(self).wf(),
        ensures
            final(self).wf(),
            final(self).n == old(self).n,
            ready_to_sign(old(self).parties@) ==> r is Ok,
            r is Err ==> r == Err::<(), ProtocolError>(ProtocolError::StateError),
            r is Ok ==> forall|x: int|
                0 <= x < final(self).n ==> (#[trigger] final(self).parties@[x]).state
                    is BroadcastingSi,
            r is Ok ==> partials_fresh(final(self).parties@),
            r is Ok ==> forall|x: int, y: int|
                0 <= x < final(self).n && 0 <= y < final(self).n && same_signing_input(
                    &old(self).parties@[x],
                    &old(self).parties@[y],
                ) ==> (#[trigger] final(self).parties@[x]).sign_r is Some && (
                #[trigger] final(self).parties@[y]).sign_r is Some
                    && final(self).parties@[x].sign_r->Some_0@
                    == final(self).parties@[y].sign_r->Some_0@,
    {
        let ghost ps0 = self.parties@;
        let m = digest_message(msg);
        let n = self.n;
        let mut i: usize = 0;
        while i < n
            invariant
                i <= n,
                n == self.n,
                self.wf(),
                m.wf(),
                ps0.len() == n,
                forall|x: int| i <= x < n ==> self.parties@[x] == ps0[x],
                forall|x: int|
                    0 <= x < i ==> (#[trigger] ps0[x]).state is CalculatingLocalSign && derived_r(
                        &ps0[x],
                        &self.parties@[x],
                    ),
                forall|x: int|
                    0 <= x < i ==> ((#[trigger] self.parties@[x]).state
                        matches PartyState::BroadcastingSi { sis } && {
                        &&& self.parties@[x].sign_si is Some
                        &&& sis@.len() == n
                        &&& (sis@[x] matches Some(v) && v@
                            == self.parties@[x].sign_si->Some_0@)
                        &&& forall|jx: int| 0 <= jx < n && jx != x ==> (#[trigger] sis@[jx])
                            is None
                    }),
            decreases n - i,
        {
            let p = &mut self.parties[i];
            match p.calc_local_signature(&m) {
                Ok(()) => {},
                Err(e) => {
                    proof {
                        if ready_to_sign(ps0) {
                            assert(ps0[i as int].state
                                matches PartyState::CalculatingLocalSign { delta } && delta@
                                != 0);
                            assert(false);
                        }
                    }
                    return Err(e);
                },
            }
            i += 1;
        }
        proof {
            assert forall|x: int, y: int|
                0 <= x < n && 0 <= y < n && same_signing_input(&ps0[x], &ps0[y]) implies (
            #[trigger] self.parties@[x]).sign_r is Some && (#[trigger] self.parties@[y]).sign_r
                is Some && self.parties@[x].sign_r->Some_0@ == self.parties@[y].sign_r->Some_0@ by {
                let dx = ps0[x].state->CalculatingLocalSign_delta@;
                let ivx = choose|iv: nat|
                    iv < q_value() && mod_q((iv * dx) as int) == 1 && self.parties@[x].sign_r
                        is Some && self.parties@[x].sign_r->Some_0@ == (#[trigger] pt_mul_bytes(
                        pt_sum(points_bytes(ps0[x].grs@)),
                        iv,
                    ));
                let dy = ps0[y].state->CalculatingLocalSign_delta@;
                let ivy = choose|iv: nat|
                    iv < q_value() && mod_q((iv * dy) as int) == 1 && self.parties@[y].sign_r
                        is Some && self.parties@[y].sign_r->Some_0@ == (#[trigger] pt_mul_bytes(
                        pt_sum(points_bytes(ps0[y].grs@)),
                        iv,
                    ));
                crate::scalar::lemma_mod_inverse_unique(dx as int, ivx as int, ivy as int);
            }
        }
        Ok(())
    }

    /// Routes every party's partial signature to every other party.  On
    /// success from freshly opened collectors, every party finishes with
    /// the same joint signature scalar: the sum of all published partial
    /// signatures, reduced modulo the group order.
    #[verifier::loop_isolation(false)]
    #[verifier::rlimit(100)]
    pub fn phase5_gather_signatures(&mut self) -> (r: Result<(), ProtocolError>)
        requires
            old(self).wf(),
        ensures
            final(self).wf(),
            final(self).n == old(self).n,
            forall|x: int|
                0 <= x < final(self).n ==> (#[trigger] final(self).parties@[x]).sign_r == old(
                    self,
                ).parties@[x].sign_r,
            2 <= old(self).n && partials_fresh(old(self).parties@) ==> r is Ok,
            r is Ok && 2 <= old(self).n && partials_fresh(old(self).parties@) ==> forall|x: int|
                0 <= x < final(self).n ==> (#[trigger] final(self).parties@[x]).state is Fin && (
                final(self).parties@[x].sign_s matches Some(sv) && sv@ as int == mod_q(
                    sum_ints(si_vals(old(self).parties@)),
                )),
    {
        let ghost ps0 = self.parties@;
        let ghost svs = si_vals(ps0);
        let n = self.n;
        proof {
            if partials_fresh(ps0) && 2 <= n {
                assert forall|x: int|
                    0 <= x < n && !delta_full(n as int, x, 0, 0) implies ((
                #[trigger] self.parties@[x]).state matches PartyState::BroadcastingSi { sis }
                    && sis@.len() == n && (forall|s: int|
                    0 <= s < n ==> si_slot_matches(#[trigger] sis@[s], s, x, 0, 0, svs))) by {
                    let sx = ps0[x].state->BroadcastingSi_sis;
                    assert forall|sl: int| 0 <= sl < n implies si_slot_matches(
                        #[trigger] sx@[sl],
                        sl,
                        x,
                        0,
                        0,
                        svs,
                    ) by {
                        if sl == x {
                            assert(delta_delivered(sl, x, 0, 0));
                        } else {
                            assert(!delta_delivered(sl, x, 0, 0));
                        }
                    }
                }
                assert forall|x: int| 0 <= x < n implies !delta_full(n as int, x, 0, 0) by {
                    let s0: int = if x == 0 { 1 } else { 0 };
                    assert(!delta_delivered(s0, x, 0, 0));
                }
            }
        }
        let mut i: usize = 0;
        while i < n
            invariant
                i <= n,
                n == self.n,
                self.wf(),
                ps0.len() == n,
                svs == si_vals(ps0),
                forall|x: int|
                    0 <= x < n ==> (#[trigger] self.parties@[x]).sign_r == ps0[x].sign_r
                        && self.parties@[x].sign_si == ps0[x].sign_si,
                partials_fresh(ps0) && 2 <= n ==> forall|x: int|
                    0 <= x < n && !delta_full(n as int, x, i as int, 0) ==> ((
                    #[trigger] self.parties@[x]).state matches PartyState::BroadcastingSi {
                        sis,
                    } && sis@.len() == n && (forall|s: int|
                        0 <= s < n ==> si_slot_matches(
                            #[trigger] sis@[s],
                            s,
                            x,
                            i as int,
                            0,
                            svs,
                        ))),
                partials_fresh(ps0) && 2 <= n ==> forall|x: int|
                    0 <= x < n && delta_full(n as int, x, i as int, 0) ==> ((
                    #[trigger] self.parties@[x]).state is Fin && (self.parties@[x].sign_s
                        matches Some(sv) && sv@ as int == mod_q(sum_ints(svs)))),
            decreases n - i,
        {
            let si = {
                let p = &self.parties[i];
                proof {
                    if partials_fresh(ps0) && 2 <= n {
                        assert(ps0[i as int].sign_si is Some);
                    }
                }
                match &p.sign_si {
                    Some(s) => s.clone(),
                    None => {
                        return Err(ProtocolError::StateError);
                    },
                }
            };
            let mut j: usize = 0;
            while j < n
                invariant
                    j <= n,
                    i < n,
                    n == self.n,
                    self.wf(),
                    si.wf(),
                    ps0.len() == n,
                    svs == si_vals(ps0),
                    si@ as int == svs[i as int],
                    forall|x: int|
                        0 <= x < n ==> (#[trigger] self.parties@[x]).sign_r == ps0[x].sign_r
                            && self.parties@[x].sign_si == ps0[x].sign_si,
                    partials_fresh(ps0) && 2 <= n ==> forall|x: int|
                        0 <= x < n && !delta_full(n as int, x, i as int, j as int) ==> ((
                        #[trigger] self.parties@[x]).state matches PartyState::BroadcastingSi {
                            sis,
                        } && sis@.len() == n && (forall|s: int|
                            0 <= s < n ==> si_slot_matches(
                                #[trigger] sis@[s],
                                s,
                                x,
                                i as int,
                                j as int,
                                svs,
                            ))),
                    partials_fresh(ps0) && 2 <= n ==> forall|x: int|
                        0 <= x < n && delta_full(n as int, x, i as int, j as int) ==> ((
                        #[trigger] self.parties@[x]).state is Fin && (self.parties@[x].sign_s
                            matches Some(sv) && sv@ as int == mod_q(sum_ints(svs)))),
                decreases n - j,
            {
                if i != j {
                    let si_arg = si.clone();
                    let ghost sig = si_arg;
                    let ghost pre = self.parties@;
                    proof {
                        if partials_fresh(ps0) && 2 <= n {
                            let ii = i as int;
                            let jj = j as int;
                            assert(!delta_delivered(ii, jj, ii, jj));
                            assert(!delta_full(n as int, jj, ii, jj));
                            assert(si_slot_matches(
                                pre[jj].state->BroadcastingSi_sis@[ii],
                                ii,
                                jj,
                                ii,
                                jj,
                                svs,
                            ));
                        }
                    }
                    let pj = &mut self.parties[j];
                    match pj.on_si(i, si_arg) {
                        Ok(()) => {},
                        Err(e) => {
                            proof {
                                if partials_fresh(ps0) && 2 <= n {
                                    assert(false);
                                }
                            }
                            return Err(e);
                        },
                    }
                    proof {
                        if partials_fresh(ps0) && 2 <= n {
                            lemma_phase5_step(
                                pre,
                                self.parties@,
                                svs,
                                n as int,
                                i as int,
                                j as int,
                                sig,
                            );
                        }
                    }
                } else {
                    proof {
                        if partials_fresh(ps0) && 2 <= n {
                            lemma_phase5_stage_eq(
                                self.parties@,
                                svs,
                                n as int,
                                i as int,
                                j as int,
                                i as int,
                                j as int + 1,
                            );
                        }
                    }
                }
                j += 1;
            }
            proof {
                if partials_fresh(ps0) && 2 <= n {
                    lemma_phase5_stage_eq(
                        self.parties@,
                        svs,
                        n as int,
                        i as int,
                        n as int,
                        i as int + 1,
                        0,
                    );
                }
            }
            i += 1;
        }
        proof {
            if partials_fresh(ps0) && 2 <= n {
                assert forall|x: int| 0 <= x < n implies delta_full(n as int, x, n as int, 0) by {
                    assert forall|s: int| 0 <= s < n implies #[trigger] delta_delivered(
                        s,
                        x,
                        n as int,
                        0,
                    ) by {}
                }
            }
        }
        Ok(())
    }

    /// Whether all parties hold the same ephemeral point.
    #[verifier::loop_isolation(false)]
    pub fn verify_r(&self) -> (r: bool)
        requires
            self.wf(),
            forall|l: int| 0 <= l < self.n ==> (#[trigger] self.parties@[l]).sign_r is Some,
        ensures
            r == forall|l: int|
                0 <= l < self.n ==> (#[trigger] self.parties@[l]).sign_r->Some_0@
                    == self.parties@[0].sign_r->Some_0@,
    {
        let n = self.n;
        let r0 = match &self.parties[0].sign_r {
            Some(p) => p,
            None => vstd::pervasive::unreached(),
        };
        let mut l: usize = 1;
        while l < n
            invariant
                1 <= l <= n,
                self.wf(),
                forall|x: int| 0 <= x < n ==> (#[trigger] self.parties@[x]).sign_r is Some,
                r0@ == self.parties@[0].sign_r->Some_0@,
                forall|x: int|
                    0 <= x < l ==> (#[trigger] self.parties@[x]).sign_r->Some_0@ == r0@,
            decreases n - l,
        {
            let rl = match &self.parties[l].sign_r {
                Some(p) => p,
                None => vstd::pervasive::unreached(),
            };
            if !eq_bytes(&r0.b, &rl.b) {
                return false;
            }
            l += 1;
        }
        true
    }

    /// Whether every party's copy of the final signature passes the
    /// standard ECDSA check.
    #[verifier::loop_isolation(false)]
    pub fn verify_signature(&self, msg: &[u8]) -> (r: bool)
        requires
            self.wf(),
            forall|l: int|
                0 <= l < self.n ==> (#[trigger] self.parties@[l]).sign_rx is Some
                    && self.parties@[l].sign_s is Some && self.parties@[l].y is Some
                    && self.parties@[l].sign_s->Some_0@ != 0,
        ensures
            r == forall|l: int|
                0 <= l < self.n ==> party_verifies(
                    #[trigger] &self.parties@[l],
                    mod_q(be(crate::scalar::sha256_of(msg@)) as int) as nat,
                ),
    {
        let m = digest_message(msg);
        let n = self.n;
        let mut l: usize = 0;
        while l < n
            invariant
                l <= n,
                self.wf(),
                m.wf(),
                m@ == mod_q(be(crate::scalar::sha256_of(msg@)) as int),
                forall|x: int|
                    0 <= x < n ==> (#[trigger] self.parties@[x]).sign_rx is Some
                        && self.parties@[x].sign_s is Some && self.parties@[x].y is Some
                        && self.parties@[x].sign_s->Some_0@ != 0,
                forall|x: int| 0 <= x < l ==> party_verifies(#[trigger] &self.parties@[x], m@),
            decreases n - l,
        {
            let ok = self.parties[l].verify(&m);
            if !ok {
                proof {
                    let pl = &self.parties@[l as int];
                    assert(!party_verifies(pl, m@)) by {
                        if party_verifies(pl, m@) {
                            let siv1 = choose|siv: nat|
                                siv < q_value() && mod_q((siv * pl.sign_s->Some_0@) as int) == 1
                                    && sig_matches(pl.y->Some_0@, pl.sign_rx->Some_0@, siv, m@);
                            let siv2 = choose|siv: nat|
                                siv < q_value() && mod_q((siv * pl.sign_s->Some_0@) as int) == 1
                                    && !sig_matches(pl.y->Some_0@, pl.sign_rx->Some_0@, siv, m@);
                            crate::scalar::lemma_mod_inverse_unique(
                                pl.sign_s->Some_0@ as int,
                                siv1 as int,
                                siv2 as int,
                            );
                        }
                    }
                }
                return false;
            }
            l += 1;
        }
        true
    }
}

} // verus!

verus! {

/// The four exchange rows of a party in the exchange phase.
pub open spec fn kr_of(p: &Party) -> Seq<mta::Party> {
    p.state->Mta_kr@
}

pub open spec fn rk_of(p: &Party) -> Seq<mta::Party> {
    p.state->Mta_rk@
}

pub open spec fn ku_of(p: &Party) -> Seq<mta::Party> {
    p.state->Mta_ku@
}

pub open spec fn uk_of(p: &Party) -> Seq<mta::Party> {
    p.state->Mta_uk@
}

pub open spec fn ki_val(p: &Party) -> int {
    p.ki->Some_0@ as int
}

pub open spec fn ri_val(p: &Party) -> int {
    p.ri->Some_0@ as int
}

pub open spec fn ui_val(p: &Party) -> int {
    p.ui->Some_0@ as int
}

/// Both endpoints of one pairwise exchange have finished all four runs,
/// and each of the four share pairs sums to the product of its secrets.
pub open spec fn pair_done(pi: &Party, pj: &Party, i: int, j: int) -> bool {
    &&& pi.state is Mta && pj.state is Mta
    &&& kr_of(pi)[j].fin() && rk_of(pi)[j].fin() && ku_of(pi)[j].fin() && uk_of(pi)[j].fin()
    &&& kr_of(pj)[i].fin() && rk_of(pj)[i].fin() && ku_of(pj)[i].fin() && uk_of(pj)[i].fin()
    &&& kr_of(pi)[j].share() + rk_of(pj)[i].share() == ki_val(pi) * ri_val(pj)
    &&& rk_of(pi)[j].share() + kr_of(pj)[i].share() == ri_val(pi) * ki_val(pj)
    &&& ku_of(pi)[j].share() + uk_of(pj)[i].share() == ki_val(pi) * ui_val(pj)
    &&& uk_of(pi)[j].share() + ku_of(pj)[i].share() == ui_val(pi) * ki_val(pj)
}

/// Every party has published its local delta, and the deltas and sigmas
/// reconcile: summed over the parties they agree, modulo the group order,
/// with the product of the summed nonces and the summed blinding nonces,
/// and with the product of the summed nonces and the summed key shares.
pub open spec fn deltas_reconcile(ps: Seq<Party>) -> bool {
    &&& forall|x: int|
        0 <= x < ps.len() ==> (#[trigger] ps[x]).state is BroadcastingDelta && ps[x].delta_i
            is Some && ps[x].sigma_i is Some && ps[x].ki is Some && ps[x].ri is Some && ps[x].ui
            is Some
    &&& mod_q(sum_ints(delta_vals(ps))) == mod_q(sum_ints(ki_vals(ps)) * sum_ints(ri_vals(ps)))
    &&& mod_q(sum_ints(sigma_vals(ps))) == mod_q(sum_ints(ki_vals(ps)) * sum_ints(ui_vals(ps)))
}

/// Two parties about to derive the ephemeral point hold the same inputs
/// for it: the same cached commitment encodings and the same joint delta.
pub open spec fn same_signing_input(a: &Party, b: &Party) -> bool {
    &&& a.state is CalculatingLocalSign
    &&& b.state is CalculatingLocalSign
    &&& a.state->CalculatingLocalSign_delta@ == b.state->CalculatingLocalSign_delta@
    &&& points_bytes(a.grs@) == points_bytes(b.grs@)
}

/// The party's ephemeral point was derived from its pre-phase inputs: it
/// is the cached commitment sum times some inverse of the joint delta.
pub open spec fn derived_r(p_old: &Party, p_new: &Party) -> bool {
    exists|iv: nat|
        iv < q_value() && mod_q((iv * p_old.state->CalculatingLocalSign_delta@) as int) == 1
            && p_new.sign_r is Some && p_new.sign_r->Some_0@ == (#[trigger] pt_mul_bytes(
            pt_sum(points_bytes(p_old.grs@)),
            iv,
        ))
}

/// Right after the exchange phase closes, every party's delta collector
/// holds exactly its own published slot: the raw local delta, congruent to
/// the reduced one it announces, with every other slot still empty.
pub open spec fn collectors_fresh(ps: Seq<Party>) -> bool {
    forall|x: int|
        0 <= x < ps.len() ==> ((#[trigger] ps[x]).state matches PartyState::BroadcastingDelta {
            deltas,
        } && {
            &&& ps[x].delta_i is Some
            &&& deltas@.len() == ps.len()
            &&& (deltas@[x] matches Some(d0) && mod_q(d0@) == ps[x].delta_i->Some_0@ as int)
            &&& forall|jx: int| 0 <= jx < ps.len() && jx != x ==> (#[trigger] deltas@[jx]) is None
        })
}

/// Whether sender `s` has reached party `x` when the delta broadcast has
/// completed the senders before `i` and, for sender `i`, the receivers
/// before `j`; a party's own slot is filled from the start.
pub open spec fn delta_delivered(s: int, x: int, i: int, j: int) -> bool {
    s == x || s < i || (s == i && x < j)
}

/// Whether party `x` has received every sender at that stage.
pub open spec fn delta_full(n: int, x: int, i: int, j: int) -> bool {
    forall|s: int| 0 <= s < n ==> delta_delivered(s, x, i, j)
}

/// What one slot of a delta collector holds at that stage.
pub open spec fn delta_slot_matches(
    o: Option<Mint>,
    s: int,
    x: int,
    i: int,
    j: int,
    ds: Seq<int>,
) -> bool {
    if delta_delivered(s, x, i, j) {
        o matches Some(d) && (if s == x {
            mod_q(d@) == ds[x]
        } else {
            d@ == ds[s]
        })
    } else {
        o is None
    }
}

/// Every party stands before its first phase.
pub open spec fn all_void(ps: Seq<Party>) -> bool {
    forall|x: int| 0 <= x < ps.len() ==> (#[trigger] ps[x]).state is Void
}

/// Every party stands in the pairwise-exchange phase.
pub open spec fn all_in_exchange(ps: Seq<Party>) -> bool {
    forall|x: int| 0 <= x < ps.len() ==> (#[trigger] ps[x]).state is Mta
}

/// Every party stands ready for the local signature: in the right phase
/// with a nonzero joint delta.
pub open spec fn ready_to_sign(ps: Seq<Party>) -> bool {
    forall|x: int|
        0 <= x < ps.len() ==> ((#[trigger] ps[x]).state
            matches PartyState::CalculatingLocalSign { delta } && delta@ != 0)
}

/// Right after the local signatures, each partial-signature collector
/// holds exactly the party's own published slot.
pub open spec fn partials_fresh(ps: Seq<Party>) -> bool {
    forall|x: int|
        0 <= x < ps.len() ==> ((#[trigger] ps[x]).state matches PartyState::BroadcastingSi {
            sis,
        } && {
            &&& ps[x].sign_si is Some
            &&& sis@.len() == ps.len()
            &&& (sis@[x] matches Some(v) && v@ == ps[x].sign_si->Some_0@)
            &&& forall|jx: int| 0 <= jx < ps.len() && jx != x ==> (#[trigger] sis@[jx]) is None
        })
}

/// The published partial signatures of all parties.
pub open spec fn si_vals(ps: Seq<Party>) -> Seq<int> {
    Seq::new(ps.len(), |x: int| ps[x].sign_si->Some_0@ as int)
}

/// The nonce shares of all parties.
pub open spec fn ki_vals(ps: Seq<Party>) -> Seq<int> {
    Seq::new(ps.len(), |x: int| ps[x].ki->Some_0@ as int)
}

/// The blinding-nonce shares of all parties.
pub open spec fn ri_vals(ps: Seq<Party>) -> Seq<int> {
    Seq::new(ps.len(), |x: int| ps[x].ri->Some_0@ as int)
}

/// The key shares of all parties.
pub open spec fn ui_vals(ps: Seq<Party>) -> Seq<int> {
    Seq::new(ps.len(), |x: int| ps[x].ui->Some_0@ as int)
}

/// The published local deltas of all parties.
pub open spec fn delta_vals(ps: Seq<Party>) -> Seq<int> {
    Seq::new(ps.len(), |x: int| ps[x].delta_i->Some_0@ as int)
}

/// The local sigmas of all parties.
pub open spec fn sigma_vals(ps: Seq<Party>) -> Seq<int> {
    Seq::new(ps.len(), |x: int| ps[x].sigma_i->Some_0@ as int)
}

} // verus!

verus! {

/// One delivery step of the delta broadcast: sender `i` has just reached
/// party `j`.  The stage invariant moves from receiver bound `j` to
/// `j + 1`; if the delivery filled `j`'s collector, party `j` reconciles
/// the joint delta, which equals the reduced sum of all published deltas
/// because its own raw slot is congruent to its published value.
proof fn lemma_phase3_step(
    pre: Seq<Party>,
    post: Seq<Party>,
    ps0: Seq<Party>,
    ds: Seq<int>,
    n: int,
    i: int,
    j: int,
    di: Mint,
)
    requires
        ps0.len() == n,
        pre.len() == n,
        post.len() == n,
        ds == delta_vals(ps0),
        0 <= i < n,
        0 <= j < n,
        i != j,
        collectors_fresh(ps0),
        di@ == ds[i],
        forall|x: int| 0 <= x < n && x != j ==> post[x] == pre[x],
        forall|x: int|
            0 <= x < n && !delta_full(n, x, i, j) ==> ((#[trigger] pre[x]).state
                matches PartyState::BroadcastingDelta { deltas } && deltas@.len() == n && (forall|
                s: int,
            |
                0 <= s < n ==> delta_slot_matches(#[trigger] deltas@[s], s, x, i, j, ds))),
        forall|x: int|
            0 <= x < n && delta_full(n, x, i, j) ==> ((#[trigger] pre[x]).state
                matches PartyState::CalculatingLocalSign { delta } && delta@ == mod_q(
                sum_ints(ds),
            )),
        pre[j].state matches PartyState::BroadcastingDelta { deltas } ==> ({
            let d2 = deltas@.update(i, Some(di));
            if opt_filled(d2) {
                post[j].state matches PartyState::CalculatingLocalSign { delta } && delta@
                    == mod_q(sum_ints(opt_mint_vals(d2)))
            } else {
                post[j].state matches PartyState::BroadcastingDelta { deltas: dd } && dd@ == d2
            }
        }),
    ensures
        forall|x: int|
            0 <= x < n && !delta_full(n, x, i, j + 1) ==> ((#[trigger] post[x]).state
                matches PartyState::BroadcastingDelta { deltas } && deltas@.len() == n && (forall|
                s: int,
            |
                0 <= s < n ==> delta_slot_matches(#[trigger] deltas@[s], s, x, i, j + 1, ds))),
        forall|x: int|
            0 <= x < n && delta_full(n, x, i, j + 1) ==> ((#[trigger] post[x]).state
                matches PartyState::CalculatingLocalSign { delta } && delta@ == mod_q(
                sum_ints(ds),
            )),
{
    crate::scalar::lemma_q_bounds();
    let q = q_value() as int;
    assert(!delta_delivered(i, j, i, j));
    assert(!delta_full(n, j, i, j));
    let pj = pre[j];
    let deltas = pj.state->BroadcastingDelta_deltas;
    let d2 = deltas@.update(i, Some(di));
    // The updated collector matches stage (i, j + 1) for receiver j.
    assert forall|s: int| 0 <= s < n implies delta_slot_matches(
        #[trigger] d2[s],
        s,
        j,
        i,
        j + 1,
        ds,
    ) by {
        if s != i {
            assert(delta_slot_matches(deltas@[s], s, j, i, j, ds));
            assert(delta_delivered(s, j, i, j + 1) == delta_delivered(s, j, i, j));
        }
    }
    // Filled exactly when every sender has reached j at the new stage.
    assert(opt_filled(d2) == delta_full(n, j, i, j + 1)) by {
        if opt_filled(d2) {
            assert forall|s: int| 0 <= s < n implies #[trigger] delta_delivered(
                s,
                j,
                i,
                j + 1,
            ) by {
                assert(delta_slot_matches(d2[s], s, j, i, j + 1, ds));
                assert(d2[s] is Some);
            }
        }
        if delta_full(n, j, i, j + 1) {
            assert forall|s: int| 0 <= s < n implies (#[trigger] d2[s]) is Some by {
                assert(delta_slot_matches(d2[s], s, j, i, j + 1, ds));
                assert(delta_delivered(s, j, i, j + 1));
            }
        }
    }
    if opt_filled(d2) {
        // The collector now holds every published delta, with j's own raw
        // slot congruent to its published value.
        let raw = deltas@[j]->Some_0@ as int;
        assert(delta_delivered(j, j, i, j));
        assert(delta_slot_matches(deltas@[j], j, j, i, j, ds));
        assert(mod_q(raw) == ds[j]);
        assert(opt_mint_vals(d2) =~= ds.update(j, raw)) by {
            assert forall|s: int| 0 <= s < n implies opt_mint_vals(d2)[s] == ds.update(j, raw)[s]
                by {
                assert(delta_slot_matches(d2[s], s, j, i, j + 1, ds));
                assert(delta_delivered(s, j, i, j + 1));
            }
        }
        crate::sums::lemma_sum_update(ds, j, raw);
        assert(sum_ints(opt_mint_vals(d2)) == sum_ints(ds) + raw - ds[j]);
        vstd::arithmetic::div_mod::lemma_fundamental_div_mod(raw, q);
        assert(raw - ds[j] == q * (raw / q));
        vstd::arithmetic::div_mod::lemma_mod_multiples_vanish(raw / q, sum_ints(ds), q);
        assert((q * (raw / q) + sum_ints(ds)) % q == sum_ints(ds) % q);
        assert(mod_q(sum_ints(opt_mint_vals(d2))) == mod_q(sum_ints(ds)));
    }
    // Other parties are untouched, and their stage predicates carry over.
    assert forall|x: int| 0 <= x < n && x != j implies (delta_full(n, x, i, j + 1) == delta_full(
        n,
        x,
        i,
        j,
    )) by {
        if delta_full(n, x, i, j) {
            assert forall|s: int| 0 <= s < n implies #[trigger] delta_delivered(s, x, i, j + 1) by {
                assert(delta_delivered(s, x, i, j));
            }
        }
        if delta_full(n, x, i, j + 1) {
            assert forall|s: int| 0 <= s < n implies #[trigger] delta_delivered(s, x, i, j) by {
                assert(delta_delivered(s, x, i, j + 1));
            }
        }
    }
    assert forall|x: int|
        0 <= x < n && x != j && !delta_full(n, x, i, j + 1) implies ((#[trigger] post[x]).state
            matches PartyState::BroadcastingDelta { deltas: dx } && dx@.len() == n && (forall|
        s: int,
    |
        0 <= s < n ==> delta_slot_matches(#[trigger] dx@[s], s, x, i, j + 1, ds))) by {
        assert(post[x] == pre[x]);
        assert(!delta_full(n, x, i, j));
        let dx = pre[x].state->BroadcastingDelta_deltas;
        assert forall|s: int| 0 <= s < n implies delta_slot_matches(
            #[trigger] dx@[s],
            s,
            x,
            i,
            j + 1,
            ds,
        ) by {
            assert(delta_slot_matches(dx@[s], s, x, i, j, ds));
            assert(delta_delivered(s, x, i, j + 1) == delta_delivered(s, x, i, j));
        }
    }
}

} // verus!

verus! {

/// Two stage descriptions that deliver the same messages describe the
/// same collectors, so the broadcast invariant moves freely between them.
proof fn lemma_phase3_stage_eq(
    ps: Seq<Party>,
    ds: Seq<int>,
    n: int,
    i1: int,
    j1: int,
    i2: int,
    j2: int,
)
    requires
        ps.len() == n,
        forall|x: int, s: int|
            0 <= x < n && 0 <= s < n ==> (#[trigger] delta_delivered(s, x, i1, j1))
                == delta_delivered(s, x, i2, j2),
        forall|x: int|
            0 <= x < n && !delta_full(n, x, i1, j1) ==> ((#[trigger] ps[x]).state
                matches PartyState::BroadcastingDelta { deltas } && deltas@.len() == n && (forall|
                s: int,
            |
                0 <= s < n ==> delta_slot_matches(#[trigger] deltas@[s], s, x, i1, j1, ds))),
        forall|x: int|
            0 <= x < n && delta_full(n, x, i1, j1) ==> ((#[trigger] ps[x]).state
                matches PartyState::CalculatingLocalSign { delta } && delta@ == mod_q(
                sum_ints(ds),
            )),
    ensures
        forall|x: int|
            0 <= x < n && !delta_full(n, x, i2, j2) ==> ((#[trigger] ps[x]).state
                matches PartyState::BroadcastingDelta { deltas } && deltas@.len() == n && (forall|
                s: int,
            |
                0 <= s < n ==> delta_slot_matches(#[trigger] deltas@[s], s, x, i2, j2, ds))),
        forall|x: int|
            0 <= x < n && delta_full(n, x, i2, j2) ==> ((#[trigger] ps[x]).state
                matches PartyState::CalculatingLocalSign { delta } && delta@ == mod_q(
                sum_ints(ds),
            )),
{
    assert forall|x: int| 0 <= x < n implies (delta_full(n, x, i1, j1) == delta_full(
        n,
        x,
        i2,
        j2,
    )) by {
        if delta_full(n, x, i1, j1) {
            assert forall|s: int| 0 <= s < n implies #[trigger] delta_delivered(s, x, i2, j2) by {
                assert(delta_delivered(s, x, i1, j1));
            }
        }
        if delta_full(n, x, i2, j2) {
            assert forall|s: int| 0 <= s < n implies #[trigger] delta_delivered(s, x, i1, j1) by {
                assert(delta_delivered(s, x, i1, j1) == delta_delivered(s, x, i2, j2));
            }
        }
    }
    assert forall|x: int| 0 <= x < n && !delta_full(n, x, i2, j2) implies ((
    #[trigger] ps[x]).state matches PartyState::BroadcastingDelta { deltas } && deltas@.len() == n
        && (forall|s: int|
        0 <= s < n ==> delta_slot_matches(#[trigger] deltas@[s], s, x, i2, j2, ds))) by {
        assert(!delta_full(n, x, i1, j1));
        let dx = ps[x].state->BroadcastingDelta_deltas;
        assert forall|s: int| 0 <= s < n implies delta_slot_matches(
            #[trigger] dx@[s],
            s,
            x,
            i2,
            j2,
            ds,
        ) by {
            assert(delta_slot_matches(dx@[s], s, x, i1, j1, ds));
            assert(delta_delivered(s, x, i1, j1) == delta_delivered(s, x, i2, j2));
        }
    }
}

} // verus!

verus! {

/// Right after every party has drawn its shares, each collector holds
/// exactly the party's own two committed points, with every other slot
/// still empty.
pub open spec fn commits_fresh(ps: Seq<Party>) -> bool {
    forall|x: int|
        0 <= x < ps.len() ==> ((#[trigger] ps[x]).state matches PartyState::BroadcastingGr {
            gus,
            grs,
        } && {
            &&& ps[x].gui is Some && ps[x].gri is Some
            &&& gus@.len() == ps.len() && grs@.len() == ps.len()
            &&& (gus@[x] matches Some(pu) && pu@ == ps[x].gui->Some_0@)
            &&& (grs@[x] matches Some(pg) && pg@ == ps[x].gri->Some_0@)
            &&& forall|l: int| 0 <= l < ps.len() && l != x ==> (#[trigger] gus@[l]) is None
            &&& forall|l: int| 0 <= l < ps.len() && l != x ==> (#[trigger] grs@[l]) is None
        })
}

/// The committed key-share points of all parties, by encoding.
pub open spec fn gui_bytes(ps: Seq<Party>) -> Seq<Seq<u8>> {
    Seq::new(ps.len(), |x: int| ps[x].gui->Some_0@)
}

/// The committed nonce points of all parties, by encoding.
pub open spec fn gri_bytes(ps: Seq<Party>) -> Seq<Seq<u8>> {
    Seq::new(ps.len(), |x: int| ps[x].gri->Some_0@)
}

/// What one slot of a commitment collector holds at a broadcast stage.
pub open spec fn commit_slot_matches(
    o: Option<Point>,
    s: int,
    x: int,
    i: int,
    j: int,
    vs: Seq<Seq<u8>>,
) -> bool {
    if delta_delivered(s, x, i, j) {
        o matches Some(p) && p@ == vs[s]
    } else {
        o is None
    }
}

/// A party has absorbed the full commitment broadcast: it aggregated the
/// public key from everyone's key-share points and cached everyone's
/// nonce points.
pub open spec fn commit_absorbed(p: &Party, uvs: Seq<Seq<u8>>, gvs: Seq<Seq<u8>>) -> bool {
    &&& p.state is Mta
    &&& p.y matches Some(yv) && yv@ == pt_sum(uvs)
    &&& points_bytes(p.grs@) == gvs
}

} // verus!

verus! {

/// What a still-collecting party's commitment collectors hold at a
/// broadcast stage.
pub open spec fn commit_collecting(
    p: &Party,
    x: int,
    i: int,
    j: int,
    n: int,
    uvs: Seq<Seq<u8>>,
    gvs: Seq<Seq<u8>>,
) -> bool {
    p.state matches PartyState::BroadcastingGr { gus, grs } && {
        &&& gus@.len() == n && grs@.len() == n
        &&& forall|s: int| 0 <= s < n ==> commit_slot_matches(#[trigger] gus@[s], s, x, i, j, uvs)
        &&& forall|s: int| 0 <= s < n ==> commit_slot_matches(#[trigger] grs@[s], s, x, i, j, gvs)
    }
}

/// One delivery step of the commitment broadcast: sender `i` has just
/// reached party `j`.  If the delivery filled `j`'s collectors, party `j`
/// aggregates the common public key and caches the common nonce list.
#[verifier::rlimit(60)]
proof fn lemma_phase1_step(
    pre: Seq<Party>,
    post: Seq<Party>,
    uvs: Seq<Seq<u8>>,
    gvs: Seq<Seq<u8>>,
    n: int,
    i: int,
    j: int,
    gu: Point,
    gr: Point,
)
    requires
        pre.len() == n,
        post.len() == n,
        uvs.len() == n,
        gvs.len() == n,
        0 <= i < n,
        0 <= j < n,
        i != j,
        gu@ == uvs[i],
        gr@ == gvs[i],
        forall|x: int| 0 <= x < n && x != j ==> post[x] == pre[x],
        forall|x: int|
            0 <= x < n && !delta_full(n, x, i, j) ==> commit_collecting(
                #[trigger] &pre[x],
                x,
                i,
                j,
                n,
                uvs,
                gvs,
            ),
        forall|x: int|
            0 <= x < n && delta_full(n, x, i, j) ==> commit_absorbed(
                #[trigger] &pre[x],
                uvs,
                gvs,
            ),
        pre[j].state matches PartyState::BroadcastingGr { gus, grs } ==> ({
            let gus2 = gus@.update(i, Some(gu));
            let grs2 = grs@.update(i, Some(gr));
            if opt_filled(gus2) && opt_filled(grs2) {
                &&& post[j].state is Mta
                &&& post[j].y matches Some(yv) && yv@ == pt_sum(opt_points_bytes(gus2))
                &&& points_bytes(post[j].grs@) == opt_points_bytes(grs2)
            } else {
                post[j].state matches PartyState::BroadcastingGr { gus: g2, grs: r2 } && g2@
                    == gus2 && r2@ == grs2
            }
        }),
    ensures
        forall|x: int|
            0 <= x < n && !delta_full(n, x, i, j + 1) ==> commit_collecting(
                #[trigger] &post[x],
                x,
                i,
                j + 1,
                n,
                uvs,
                gvs,
            ),
        forall|x: int|
            0 <= x < n && delta_full(n, x, i, j + 1) ==> commit_absorbed(
                #[trigger] &post[x],
                uvs,
                gvs,
            ),
{
    assert(!delta_delivered(i, j, i, j));
    assert(!delta_full(n, j, i, j));
    assert(commit_collecting(&pre[j], j, i, j, n, uvs, gvs));
    let gus = pre[j].state->BroadcastingGr_gus;
    let grs = pre[j].state->BroadcastingGr_grs;
    let gus2 = gus@.update(i, Some(gu));
    let grs2 = grs@.update(i, Some(gr));
    // The updated collectors match stage (i, j + 1) for receiver j.
    assert forall|s: int| 0 <= s < n implies commit_slot_matches(
        #[trigger] gus2[s],
        s,
        j,
        i,
        j + 1,
        uvs,
    ) by {
        if s != i {
            assert(commit_slot_matches(gus@[s], s, j, i, j, uvs));
            assert(delta_delivered(s, j, i, j + 1) == delta_delivered(s, j, i, j));
        }
    }
    assert forall|s: int| 0 <= s < n implies commit_slot_matches(
        #[trigger] grs2[s],
        s,
        j,
        i,
        j + 1,
        gvs,
    ) by {
        if s != i {
            assert(commit_slot_matches(grs@[s], s, j, i, j, gvs));
            assert(delta_delivered(s, j, i, j + 1) == delta_delivered(s, j, i, j));
        }
    }
    // Filled exactly when every sender has reached j at the new stage.
    assert((opt_filled(gus2) && opt_filled(grs2)) == delta_full(n, j, i, j + 1)) by {
        if opt_filled(gus2) {
            assert forall|s: int| 0 <= s < n implies #[trigger] delta_delivered(
                s,
                j,
                i,
                j + 1,
            ) by {
                assert(commit_slot_matches(gus2[s], s, j, i, j + 1, uvs));
                assert(gus2[s] is Some);
            }
        }
        if delta_full(n, j, i, j + 1) {
            assert forall|s: int| 0 <= s < n implies (#[trigger] gus2[s]) is Some && grs2[s]
                is Some by {
                assert(commit_slot_matches(gus2[s], s, j, i, j + 1, uvs));
                assert(commit_slot_matches(grs2[s], s, j, i, j + 1, gvs));
                assert(delta_delivered(s, j, i, j + 1));
            }
        }
    }
    if opt_filled(gus2) && opt_filled(grs2) {
        assert(opt_points_bytes(gus2) =~~= uvs) by {
            assert forall|s: int| 0 <= s < n implies opt_points_bytes(gus2)[s] == uvs[s] by {
                assert(commit_slot_matches(gus2[s], s, j, i, j + 1, uvs));
                assert(delta_delivered(s, j, i, j + 1));
            }
        }
        assert(opt_points_bytes(grs2) =~~= gvs) by {
            assert forall|s: int| 0 <= s < n implies opt_points_bytes(grs2)[s] == gvs[s] by {
                assert(commit_slot_matches(grs2[s], s, j, i, j + 1, gvs));
                assert(delta_delivered(s, j, i, j + 1));
            }
        }
        assert(commit_absorbed(&post[j], uvs, gvs));
    }
    // Other parties are untouched, and their stage predicates carry over.
    assert forall|x: int| 0 <= x < n && x != j implies (delta_full(n, x, i, j + 1) == delta_full(
        n,
        x,
        i,
        j,
    )) by {
        if delta_full(n, x, i, j) {
            assert forall|s: int| 0 <= s < n implies #[trigger] delta_delivered(s, x, i, j + 1) by {
                assert(delta_delivered(s, x, i, j));
            }
        }
        if delta_full(n, x, i, j + 1) {
            assert forall|s: int| 0 <= s < n implies #[trigger] delta_delivered(s, x, i, j) by {
                assert(delta_delivered(s, x, i, j + 1));
            }
        }
    }
    assert forall|x: int|
        0 <= x < n && x != j && !delta_full(n, x, i, j + 1) implies commit_collecting(
        #[trigger] &post[x],
        x,
        i,
        j + 1,
        n,
        uvs,
        gvs,
    ) by {
        assert(post[x] == pre[x]);
        assert(!delta_full(n, x, i, j));
        assert(commit_collecting(&pre[x], x, i, j, n, uvs, gvs));
        let gux = pre[x].state->BroadcastingGr_gus;
        let grx = pre[x].state->BroadcastingGr_grs;
        assert forall|s: int| 0 <= s < n implies commit_slot_matches(
            #[trigger] gux@[s],
            s,
            x,
            i,
            j + 1,
            uvs,
        ) by {
            assert(commit_slot_matches(gux@[s], s, x, i, j, uvs));
            assert(delta_delivered(s, x, i, j + 1) == delta_delivered(s, x, i, j));
        }
        assert forall|s: int| 0 <= s < n implies commit_slot_matches(
            #[trigger] grx@[s],
            s,
            x,
            i,
            j + 1,
            gvs,
        ) by {
            assert(commit_slot_matches(grx@[s], s, x, i, j, gvs));
            assert(delta_delivered(s, x, i, j + 1) == delta_delivered(s, x, i, j));
        }
    }
}

/// Two stage descriptions that deliver the same messages describe the
/// same commitment collectors.
proof fn lemma_phase1_stage_eq(
    ps: Seq<Party>,
    uvs: Seq<Seq<u8>>,
    gvs: Seq<Seq<u8>>,
    n: int,
    i1: int,
    j1: int,
    i2: int,
    j2: int,
)
    requires
        ps.len() == n,
        forall|x: int, s: int|
            0 <= x < n && 0 <= s < n ==> (#[trigger] delta_delivered(s, x, i1, j1))
                == delta_delivered(s, x, i2, j2),
        forall|x: int|
            0 <= x < n && !delta_full(n, x, i1, j1) ==> commit_collecting(
                #[trigger] &ps[x],
                x,
                i1,
                j1,
                n,
                uvs,
                gvs,
            ),
        forall|x: int|
            0 <= x < n && delta_full(n, x, i1, j1) ==> commit_absorbed(
                #[trigger] &ps[x],
                uvs,
                gvs,
            ),
    ensures
        forall|x: int|
            0 <= x < n && !delta_full(n, x, i2, j2) ==> commit_collecting(
                #[trigger] &ps[x],
                x,
                i2,
                j2,
                n,
                uvs,
                gvs,
            ),
        forall|x: int|
            0 <= x < n && delta_full(n, x, i2, j2) ==> commit_absorbed(
                #[trigger] &ps[x],
                uvs,
                gvs,
            ),
{
    assert forall|x: int| 0 <= x < n implies (delta_full(n, x, i1, j1) == delta_full(
        n,
        x,
        i2,
        j2,
    )) by {
        if delta_full(n, x, i1, j1) {
            assert forall|s: int| 0 <= s < n implies #[trigger] delta_delivered(s, x, i2, j2) by {
                assert(delta_delivered(s, x, i1, j1));
            }
        }
        if delta_full(n, x, i2, j2) {
            assert forall|s: int| 0 <= s < n implies #[trigger] delta_delivered(s, x, i1, j1) by {
                assert(delta_delivered(s, x, i1, j1) == delta_delivered(s, x, i2, j2));
            }
        }
    }
    assert forall|x: int| 0 <= x < n && !delta_full(n, x, i2, j2) implies commit_collecting(
        #[trigger] &ps[x],
        x,
        i2,
        j2,
        n,
        uvs,
        gvs,
    ) by {
        assert(!delta_full(n, x, i1, j1));
        assert(commit_collecting(&ps[x], x, i1, j1, n, uvs, gvs));
        let gux = ps[x].state->BroadcastingGr_gus;
        let grx = ps[x].state->BroadcastingGr_grs;
        assert forall|s: int| 0 <= s < n implies commit_slot_matches(
            #[trigger] gux@[s],
            s,
            x,
            i2,
            j2,
            uvs,
        ) by {
            assert(commit_slot_matches(gux@[s], s, x, i1, j1, uvs));
            assert(delta_delivered(s, x, i1, j1) == delta_delivered(s, x, i2, j2));
        }
        assert forall|s: int| 0 <= s < n implies commit_slot_matches(
            #[trigger] grx@[s],
            s,
            x,
            i2,
            j2,
            gvs,
        ) by {
            assert(commit_slot_matches(grx@[s], s, x, i1, j1, gvs));
            assert(delta_delivered(s, x, i1, j1) == delta_delivered(s, x, i2, j2));
        }
    }
}

} // verus!

verus! {

/// What one slot of a partial-signature collector holds at a broadcast
/// stage.
pub open spec fn si_slot_matches(
    o: Option<Scalar>,
    s: int,
    x: int,
    i: int,
    j: int,
    svs: Seq<int>,
) -> bool {
    if delta_delivered(s, x, i, j) {
        o matches Some(v) && v@ as int == svs[s]
    } else {
        o is None
    }
}

/// One delivery step of the partial-signature broadcast: sender `i` has
/// just reached party `j`.  If the delivery filled `j`'s collector, party
/// `j` finishes with the reduced sum of all published partial signatures.
proof fn lemma_phase5_step(
    pre: Seq<Party>,
    post: Seq<Party>,
    svs: Seq<int>,
    n: int,
    i: int,
    j: int,
    si: Scalar,
)
    requires
        pre.len() == n,
        post.len() == n,
        svs.len() == n,
        0 <= i < n,
        0 <= j < n,
        i != j,
        si@ as int == svs[i],
        forall|x: int| 0 <= x < n && x != j ==> post[x] == pre[x],
        forall|x: int|
            0 <= x < n && !delta_full(n, x, i, j) ==> ((#[trigger] pre[x]).state
                matches PartyState::BroadcastingSi { sis } && sis@.len() == n && (forall|s: int|
                0 <= s < n ==> si_slot_matches(#[trigger] sis@[s], s, x, i, j, svs))),
        forall|x: int|
            0 <= x < n && delta_full(n, x, i, j) ==> ((#[trigger] pre[x]).state is Fin && (
            pre[x].sign_s matches Some(sv) && sv@ as int == mod_q(sum_ints(svs)))),
        pre[j].state matches PartyState::BroadcastingSi { sis } ==> ({
            let s2 = sis@.update(i, Some(si));
            if opt_filled(s2) {
                post[j].state is Fin && (post[j].sign_s matches Some(sv) && sv@ == mod_q(
                    sum_ints(opt_scalar_vals(s2)),
                ))
            } else {
                post[j].state matches PartyState::BroadcastingSi { sis: ss } && ss@ == s2
            }
        }),
    ensures
        forall|x: int|
            0 <= x < n && !delta_full(n, x, i, j + 1) ==> ((#[trigger] post[x]).state
                matches PartyState::BroadcastingSi { sis } && sis@.len() == n && (forall|s: int|
                0 <= s < n ==> si_slot_matches(#[trigger] sis@[s], s, x, i, j + 1, svs))),
        forall|x: int|
            0 <= x < n && delta_full(n, x, i, j + 1) ==> ((#[trigger] post[x]).state is Fin && (
            post[x].sign_s matches Some(sv) && sv@ as int == mod_q(sum_ints(svs)))),
{
    assert(!delta_delivered(i, j, i, j));
    assert(!delta_full(n, j, i, j));
    let sis = pre[j].state->BroadcastingSi_sis;
    let s2 = sis@.update(i, Some(si));
    // The updated collector matches stage (i, j + 1) for receiver j.
    assert forall|s: int| 0 <= s < n implies si_slot_matches(
        #[trigger] s2[s],
        s,
        j,
        i,
        j + 1,
        svs,
    ) by {
        if s != i {
            assert(si_slot_matches(sis@[s], s, j, i, j, svs));
            assert(delta_delivered(s, j, i, j + 1) == delta_delivered(s, j, i, j));
        }
    }
    // Filled exactly when every sender has reached j at the new stage.
    assert(opt_filled(s2) == delta_full(n, j, i, j + 1)) by {
        if opt_filled(s2) {
            assert forall|s: int| 0 <= s < n implies #[trigger] delta_delivered(
                s,
                j,
                i,
                j + 1,
            ) by {
                assert(si_slot_matches(s2[s], s, j, i, j + 1, svs));
                assert(s2[s] is Some);
            }
        }
        if delta_full(n, j, i, j + 1) {
            assert forall|s: int| 0 <= s < n implies (#[trigger] s2[s]) is Some by {
                assert(si_slot_matches(s2[s], s, j, i, j + 1, svs));
                assert(delta_delivered(s, j, i, j + 1));
            }
        }
    }
    if opt_filled(s2) {
        // Every slot now holds exactly its sender's published value.
        assert(opt_scalar_vals(s2) =~= svs) by {
            assert forall|s: int| 0 <= s < n implies opt_scalar_vals(s2)[s] == svs[s] by {
                assert(si_slot_matches(s2[s], s, j, i, j + 1, svs));
                assert(delta_delivered(s, j, i, j + 1));
            }
        }
    }
    // Other parties are untouched, and their stage predicates carry over.
    assert forall|x: int| 0 <= x < n && x != j implies (delta_full(n, x, i, j + 1) == delta_full(
        n,
        x,
        i,
        j,
    )) by {
        if delta_full(n, x, i, j) {
            assert forall|s: int| 0 <= s < n implies #[trigger] delta_delivered(s, x, i, j + 1) by {
                assert(delta_delivered(s, x, i, j));
            }
        }
        if delta_full(n, x, i, j + 1) {
            assert forall|s: int| 0 <= s < n implies #[trigger] delta_delivered(s, x, i, j) by {
                assert(delta_delivered(s, x, i, j + 1));
            }
        }
    }
    assert forall|x: int| 0 <= x < n && x != j && !delta_full(n, x, i, j + 1) implies ((
    #[trigger] post[x]).state matches PartyState::BroadcastingSi { sis: sx } && sx@.len() == n && (
    forall|s: int| 0 <= s < n ==> si_slot_matches(#[trigger] sx@[s], s, x, i, j + 1, svs))) by {
        assert(post[x] == pre[x]);
        assert(!delta_full(n, x, i, j));
        let sx = pre[x].state->BroadcastingSi_sis;
        assert forall|s: int| 0 <= s < n implies si_slot_matches(
            #[trigger] sx@[s],
            s,
            x,
            i,
            j + 1,
            svs,
        ) by {
            assert(si_slot_matches(sx@[s], s, x, i, j, svs));
            assert(delta_delivered(s, x, i, j + 1) == delta_delivered(s, x, i, j));
        }
    }
}

/// Two stage descriptions that deliver the same messages describe the
/// same partial-signature collectors.
proof fn lemma_phase5_stage_eq(
    ps: Seq<Party>,
    svs: Seq<int>,
    n: int,
    i1: int,
    j1: int,
    i2: int,
    j2: int,
)
    requires
        ps.len() == n,
        forall|x: int, s: int|
            0 <= x < n && 0 <= s < n ==> (#[trigger] delta_delivered(s, x, i1, j1))
                == delta_delivered(s, x, i2, j2),
        forall|x: int|
            0 <= x < n && !delta_full(n, x, i1, j1) ==> ((#[trigger] ps[x]).state
                matches PartyState::BroadcastingSi { sis } && sis@.len() == n && (forall|s: int|
                0 <= s < n ==> si_slot_matches(#[trigger] sis@[s], s, x, i1, j1, svs))),
        forall|x: int|
            0 <= x < n && delta_full(n, x, i1, j1) ==> ((#[trigger] ps[x]).state is Fin && (
            ps[x].sign_s matches Some(sv) && sv@ as int == mod_q(sum_ints(svs)))),
    ensures
        forall|x: int|
            0 <= x < n && !delta_full(n, x, i2, j2) ==> ((#[trigger] ps[x]).state
                matches PartyState::BroadcastingSi { sis } && sis@.len() == n && (forall|s: int|
                0 <= s < n ==> si_slot_matches(#[trigger] sis@[s], s, x, i2, j2, svs))),
        forall|x: int|
            0 <= x < n && delta_full(n, x, i2, j2) ==> ((#[trigger] ps[x]).state is Fin && (
            ps[x].sign_s matches Some(sv) && sv@ as int == mod_q(sum_ints(svs)))),
{
    assert forall|x: int| 0 <= x < n implies (delta_full(n, x, i1, j1) == delta_full(
        n,
        x,
        i2,
        j2,
    )) by {
        if delta_full(n, x, i1, j1) {
            assert forall|s: int| 0 <= s < n implies #[trigger] delta_delivered(s, x, i2, j2) by {
                assert(delta_delivered(s, x, i1, j1));
            }
        }
        if delta_full(n, x, i2, j2) {
            assert forall|s: int| 0 <= s < n implies #[trigger] delta_delivered(s, x, i1, j1) by {
                assert(delta_delivered(s, x, i1, j1) == delta_delivered(s, x, i2, j2));
            }
        }
    }
    assert forall|x: int| 0 <= x < n && !delta_full(n, x, i2, j2) implies ((
    #[trigger] ps[x]).state matches PartyState::BroadcastingSi { sis } && sis@.len() == n && (
    forall|s: int| 0 <= s < n ==> si_slot_matches(#[trigger] sis@[s], s, x, i2, j2, svs))) by {
        assert(!delta_full(n, x, i1, j1));
        let sx = ps[x].state->BroadcastingSi_sis;
        assert forall|s: int| 0 <= s < n implies si_slot_matches(
            #[trigger] sx@[s],
            s,
            x,
            i2,
            j2,
            svs,
        ) by {
            assert(si_slot_matches(sx@[s], s, x, i1, j1, svs));
            assert(delta_delivered(s, x, i1, j1) == delta_delivered(s, x, i2, j2));
        }
    }
}

} // verus!
