//! Elements of the secp256k1 scalar field: integers modulo the group order
//! `q`.  A `Scalar` holds the canonical big-endian bytes of its value; its
//! view is that value, a `nat` below `q`.  The field arithmetic is done by
//! curv's secp256k1 backend behind trusted wrappers; the contracts state the
//! exact modular result.

use crate::bigint::{be, clone_bytes, lemma_pow256_adds, minimal, mint_from_bytes, pow256, Mint};
use curv::arithmetic::{Converter, NumberTests};
use curv::elliptic::curves::Scalar as CurvScalar;
use curv::elliptic::curves::Secp256k1;
use vstd::prelude::*;

verus! {

/// The order of the secp256k1 group: a 256-bit prime.
pub open spec fn q_value() -> nat {
    0xFFFFFFFFFFFFFFFFFFFFFFFFFFFFFFFEBAAEDCE6AF48A03BBFD25E8CD0364141nat
}

pub proof fn lemma_pow256_32()
    ensures
        pow256(32) == 0x10000000000000000000000000000000000000000000000000000000000000000nat,
{
    assert(pow256(0) == 1);
    assert(pow256(1) == 256);
    lemma_pow256_adds(1, 1);
    assert(pow256(2) == 0x10000nat);
    lemma_pow256_adds(2, 2);
    assert(pow256(4) == 0x100000000nat);
    lemma_pow256_adds(4, 4);
    assert(pow256(8) == 0x10000000000000000nat);
    lemma_pow256_adds(8, 8);
    assert(pow256(16) == 0x100000000000000000000000000000000nat);
    lemma_pow256_adds(16, 16);
}

/// Reduction modulo the group order.
pub open spec fn mod_q(x: int) -> int {
    x % (q_value() as int)
}

/// The group order is a 32-byte value.
pub proof fn lemma_q_bounds()
    ensures
        0 < q_value() < pow256(32),
{
    lemma_pow256_32();
}

/// An element of the scalar field, in canonical big-endian bytes.
#[derive(Debug)]
pub struct Scalar {
    pub b: Vec<u8>,
}

impl View for Scalar {
    type V = nat;

    open spec fn view(&self) -> nat {
        be(self.b@)
    }
}

impl Scalar {
    /// Canonical bytes of a reduced value.
    pub open spec fn wf(&self) -> bool {
        minimal(self.b@) && be(self.b@) < q_value()
    }

    pub open spec fn bytes(&self) -> Seq<u8> {
        self.b@
    }

    /// The canonical big-endian bytes of the value.
    pub fn to_bytes(&self) -> (r: Vec<u8>)
        ensures
            r@ == self.bytes(),
    {
        clone_bytes(&self.b)
    }
}

/// Byte-for-byte equality of two vectors.
pub fn eq_bytes(a: &Vec<u8>, b: &Vec<u8>) -> (r: bool)
    ensures
        r == (a@ == b@),
{
    if a.len() != b.len() {
        assert(a@ != b@);
        return false;
    }
    let mut i: usize = 0;
    while i < a.len()
        invariant
            a@.len() == b@.len(),
            i <= a@.len(),
            forall|j: int| 0 <= j < i ==> a@[j] == b@[j],
        decreases a@.len() - i,
    {
        if a[i] != b[i] {
            assert(a@ != b@);
            return false;
        }
        i += 1;
    }
    proof {
        assert(a@ =~= b@);
    }
    true
}

impl PartialEq for Scalar {
    fn eq(&self, other: &Scalar) -> (r: bool) {
        eq_bytes(&self.b, &other.b)
    }
}

impl vstd::std_specs::cmp::PartialEqSpecImpl for Scalar {
    open spec fn obeys_eq_spec() -> bool {
        true
    }

    open spec fn eq_spec(&self, other: &Scalar) -> bool {
        self.b@ == other.b@
    }
}

impl Clone for Scalar {
    fn clone(&self) -> (r: Scalar)
        ensures
            r@ == self@,
            r.bytes() == self.bytes(),
    {
        Scalar { b: clone_bytes(&self.b) }
    }
}

/// The scalar as a plain non-negative integer.
pub fn fe_to_mpz(fe: &Scalar) -> (r: Mint)
    requires
        fe.wf(),
    ensures
        r@ == fe@,
        r.wf(),
{
    Mint { neg: false, mag: clone_bytes(&fe.b) }
}

/// Relies on curv's `Scalar::from_bigint` for secp256k1: the scalar is the
/// argument reduced modulo the group order.
#[verifier::external_body]
pub fn fe_from_mpz(z: &Mint) -> (r: Scalar)
    ensures
        r@ == mod_q(z@),
        r.wf(),
{
    let bn = curv::BigInt::from_bytes(&z.mag[..]);
    let bn = if z.neg { -bn } else { bn };
    let v = CurvScalar::<Secp256k1>::from_bigint(&bn).to_bigint();
    Scalar { b: if curv::BigInt::is_zero(&v) { Vec::new() } else { v.to_bytes() } }
}

/// Relies on curv's scalar addition for secp256k1: addition modulo the group
/// order.
#[verifier::external_body]
pub fn scalar_add(a: &Scalar, b: &Scalar) -> (r: Scalar)
    ensures
        r@ == mod_q((a@ + b@) as int),
        r.wf(),
{
    let x = CurvScalar::<Secp256k1>::from_bigint(&curv::BigInt::from_bytes(&a.b[..]));
    let y = CurvScalar::<Secp256k1>::from_bigint(&curv::BigInt::from_bytes(&b.b[..]));
    let v = (x + y).to_bigint();
    Scalar { b: if curv::BigInt::is_zero(&v) { Vec::new() } else { v.to_bytes() } }
}

/// Relies on curv's scalar multiplication for secp256k1: multiplication
/// modulo the group order.
#[verifier::external_body]
pub fn scalar_mul(a: &Scalar, b: &Scalar) -> (r: Scalar)
    ensures
        r@ == mod_q((a@ * b@) as int),
        r.wf(),
{
    let x = CurvScalar::<Secp256k1>::from_bigint(&curv::BigInt::from_bytes(&a.b[..]));
    let y = CurvScalar::<Secp256k1>::from_bigint(&curv::BigInt::from_bytes(&b.b[..]));
    let v = (x * y).to_bigint();
    Scalar { b: if curv::BigInt::is_zero(&v) { Vec::new() } else { v.to_bytes() } }
}

/// Relies on curv's `Scalar::invert` for secp256k1: the inverse modulo the
/// group order, defined exactly for nonzero scalars.
#[verifier::external_body]
pub fn scalar_invert(a: &Scalar) -> (r: Option<Scalar>)
    ensures
        r is Some <==> mod_q(a@ as int) != 0,
        r matches Some(s) ==> mod_q((s@ * a@) as int) == 1 && s.wf(),
{
    let x = CurvScalar::<Secp256k1>::from_bigint(&curv::BigInt::from_bytes(&a.b[..]));
    match x.invert() {
        None => None,
        Some(s) => Some(Scalar { b: s.to_bigint().to_bytes() }),
    }
}

/// Relies on curv's `Scalar::random` for secp256k1: a uniformly sampled
/// nonzero scalar; every outcome lies in `[1, q)`.
#[verifier::external_body]
pub fn scalar_random() -> (r: Scalar)
    ensures
        0 < r@ < q_value(),
        r.wf(),
{
    let s = CurvScalar::<Secp256k1>::random();
    Scalar { b: s.to_bigint().to_bytes() }
}

/// A scalar has at most one inverse modulo the group order.
pub proof fn lemma_mod_inverse_unique(a: int, x: int, y: int)
    requires
        0 <= x < q_value(),
        0 <= y < q_value(),
        mod_q(x * a) == 1,
        mod_q(y * a) == 1,
    ensures
        x == y,
{
    lemma_q_bounds();
    let q = q_value() as int;
    vstd::arithmetic::div_mod::lemma_small_mod(x as nat, q_value());
    vstd::arithmetic::div_mod::lemma_small_mod(y as nat, q_value());
    vstd::arithmetic::div_mod::lemma_mul_mod_noop_left(y * a, x, q);
    vstd::arithmetic::div_mod::lemma_mul_mod_noop_left(x * a, y, q);
    assert(((y * a) % q * x) % q == (y * a * x) % q);
    assert(((x * a) % q * y) % q == (x * a * y) % q);
    assert((1 * x) % q == x % q);
    assert((1 * y) % q == y % q);
    assert(y * a * x == x * a * y) by (nonlinear_arith);
}

/// What SHA-256 returns for a message; a fixed function of the bytes alone.
pub uninterp spec fn sha256_of(m: Seq<u8>) -> Seq<u8>;

/// Relies on sha2's `Sha256`: the 32-byte digest depends on the message
/// alone.
#[verifier::external_body]
fn sha256_bytes(message: &[u8]) -> (r: Vec<u8>)
    ensures
        r@ == sha256_of(message@),
        r@.len() == 32,
{
    let d = <sha2::Sha256 as sha2::Digest>::digest(message);
    d.to_vec()
}

/// The digest of a message as a scalar: its SHA-256 hash read big-endian and
/// reduced modulo the group order.
pub fn digest_message(message: &[u8]) -> (r: Scalar)
    ensures
        r@ == mod_q(be(sha256_of(message@)) as int),
        r.wf(),
{
    let h = sha256_bytes(message);
    let m = mint_from_bytes(h.as_slice());
    fe_from_mpz(&m)
}

} // verus!
