//! Points of the secp256k1 group, held in the uncompressed 65-byte SEC1
//! encoding; the identity is the all-zero encoding, as curv serializes it.
//! A `Point`'s view is its encoding.  Group operations go through curv
//! behind trusted wrappers; each result is named as a fixed function of the
//! operands' encodings, so that equal inputs are known to give equal points.

use crate::bigint::{be, clone_bytes, minimal, mint_from_bytes};
use crate::scalar::{eq_bytes, fe_from_mpz, mod_q, Scalar};
use curv::arithmetic::Converter;
use curv::elliptic::curves::Point as CurvPoint;
use curv::elliptic::curves::Scalar as CurvScalar;
use curv::elliptic::curves::Secp256k1;
use vstd::prelude::*;

verus! {

/// The SEC1 uncompressed encoding of the fixed generator G.
pub open spec fn generator_bytes() -> Seq<u8> {
    seq![0x04u8, 0x79u8, 0xbeu8, 0x66u8, 0x7eu8, 0xf9u8, 0xdcu8, 0xbbu8, 0xacu8, 0x55u8, 0xa0u8,
        0x62u8, 0x95u8, 0xceu8, 0x87u8, 0x0bu8, 0x07u8, 0x02u8, 0x9bu8, 0xfcu8, 0xdbu8, 0x2du8,
        0xceu8, 0x28u8, 0xd9u8, 0x59u8, 0xf2u8, 0x81u8, 0x5bu8, 0x16u8, 0xf8u8, 0x17u8, 0x98u8,
        0x48u8, 0x3au8, 0xdau8, 0x77u8, 0x26u8, 0xa3u8, 0xc4u8, 0x65u8, 0x5du8, 0xa4u8, 0xfbu8,
        0xfcu8, 0x0eu8, 0x11u8, 0x08u8, 0xa8u8, 0xfdu8, 0x17u8, 0xb4u8, 0x48u8, 0xa6u8, 0x85u8,
        0x54u8, 0x19u8, 0x9cu8, 0x47u8, 0xd0u8, 0x8fu8, 0xfbu8, 0x10u8, 0xd4u8, 0xb8u8]
}

/// A group element in its 65-byte encoding.
#[derive(Debug)]
pub struct Point {
    pub b: Vec<u8>,
}

impl View for Point {
    type V = Seq<u8>;

    open spec fn view(&self) -> Seq<u8> {
        self.b@
    }
}

impl Point {
    pub open spec fn wf(&self) -> bool {
        self.b@.len() == 65
    }
}

impl PartialEq for Point {
    fn eq(&self, other: &Point) -> (r: bool) {
        eq_bytes(&self.b, &other.b)
    }
}

impl vstd::std_specs::cmp::PartialEqSpecImpl for Point {
    open spec fn obeys_eq_spec() -> bool {
        true
    }

    open spec fn eq_spec(&self, other: &Point) -> bool {
        self.b@ == other.b@
    }
}

impl Clone for Point {
    fn clone(&self) -> (r: Point)
        ensures
            r@ == self@,
    {
        Point { b: clone_bytes(&self.b) }
    }
}

/// The encoding of the sum of two points, each given by its encoding; a
/// fixed function of the two byte strings.
pub uninterp spec fn pt_add_bytes(a: Seq<u8>, b: Seq<u8>) -> Seq<u8>;

/// The encoding of a point multiplied by a scalar; a fixed function of the
/// encoding and the scalar value.
pub uninterp spec fn pt_mul_bytes(p: Seq<u8>, k: nat) -> Seq<u8>;

/// Relies on curv's generator for secp256k1: the fixed point G, whose
/// uncompressed encoding is the SEC1 constant.
#[verifier::external_body]
pub fn generator() -> (r: Point)
    ensures
        r@ == generator_bytes(),
        r.wf(),
{
    let g = CurvPoint::<Secp256k1>::generator().to_point();
    Point { b: g.to_bytes(false).to_vec() }
}

/// Relies on curv's point addition for secp256k1.  Byte strings that do not
/// decode to a point are read as the identity, whose encoding is all-zero.
#[verifier::external_body]
pub fn pt_add(a: &Point, b: &Point) -> (r: Point)
    ensures
        r@ == pt_add_bytes(a@, b@),
        r.wf(),
{
    let x = CurvPoint::<Secp256k1>::from_bytes(&a.b[..]);
    let x = match x {
        Ok(p) => p,
        Err(_) => CurvPoint::zero(),
    };
    let y = CurvPoint::<Secp256k1>::from_bytes(&b.b[..]);
    let y = match y {
        Ok(p) => p,
        Err(_) => CurvPoint::zero(),
    };
    Point { b: (x + y).to_bytes(false).to_vec() }
}

/// Relies on curv's scalar multiplication for secp256k1.  Byte strings that
/// do not decode to a point are read as the identity.
#[verifier::external_body]
pub fn pt_mul(p: &Point, k: &Scalar) -> (r: Point)
    ensures
        r@ == pt_mul_bytes(p@, k@),
        r.wf(),
{
    let x = CurvPoint::<Secp256k1>::from_bytes(&p.b[..]);
    let x = match x {
        Ok(q) => q,
        Err(_) => CurvPoint::zero(),
    };
    let s = CurvScalar::<Secp256k1>::from_bigint(&curv::BigInt::from_bytes(&k.b[..]));
    Point { b: (x * s).to_bytes(false).to_vec() }
}

/// A byte string left-padded with zeros to 32 bytes.
pub open spec fn pad32(s: Seq<u8>) -> Seq<u8>
    recommends
        s.len() <= 32,
{
    Seq::new((32 - s.len()) as nat, |i: int| 0u8) + s
}

/// Relies on curv's `Point::from_coords` for secp256k1: accepts exactly the
/// coordinate pairs on the curve, and encodes them uncompressed.
#[verifier::external_body]
pub fn point_from_xy(x: &Vec<u8>, y: &Vec<u8>) -> (r: Option<Point>)
    requires
        x@.len() <= 32,
        y@.len() <= 32,
    ensures
        r matches Some(p) ==> p.wf() && p@ == seq![4u8] + pad32(x@) + pad32(y@),
{
    let xb = curv::BigInt::from_bytes(&x[..]);
    let yb = curv::BigInt::from_bytes(&y[..]);
    match CurvPoint::<Secp256k1>::from_coords(&xb, &yb) {
        Ok(p) => Some(Point { b: p.to_bytes(false).to_vec() }),
        Err(_) => None,
    }
}

/// The x-coordinate of a point, reduced modulo the group order.  For the
/// identity, whose encoding is all-zero, this reads as zero.
pub fn get_x(p: &Point) -> (r: Scalar)
    requires
        p.wf(),
    ensures
        r@ == mod_q(be(p@.subrange(1, 33)) as int),
        r.wf(),
{
    let mut xb: Vec<u8> = Vec::new();
    let mut i: usize = 1;
    while i < 33
        invariant
            1 <= i <= 33,
            p@.len() == 65,
            xb@ =~= p@.subrange(1, i as int),
        decreases 33 - i,
    {
        xb.push(p.b[i]);
        i += 1;
    }
    let m = mint_from_bytes(xb.as_slice());
    fe_from_mpz(&m)
}

/// The left-fold sum of a list of point encodings, as the protocol
/// aggregates broadcast points; meaningful for non-empty lists.
pub open spec fn pt_sum(s: Seq<Seq<u8>>) -> Seq<u8>
    decreases s.len(),
{
    if s.len() == 0 {
        Seq::empty()
    } else if s.len() == 1 {
        s[0]
    } else {
        pt_add_bytes(pt_sum(s.drop_last()), s.last())
    }
}

} // verus!
