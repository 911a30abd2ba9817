//! The Paillier cipher: keys, encryption, decryption, and the two
//! homomorphic operations, behind trusted wrappers around the paillier
//! crate.  A ciphertext is carried as the big-endian bytes of its defining
//! integer.  What decryption returns is named `dec_of`, a fixed function of
//! the modulus and the ciphertext: a modulus from key generation is a
//! product of two distinct primes, which determines the decryption key, so
//! the pair (modulus, ciphertext) determines the plaintext.  Key structs
//! keep their fields private, so every key in circulation was made by key
//! generation and the naming is sound.

use crate::bigint::{be, clone_bytes, minimal, pow256, Mint};
use curv::arithmetic::{Converter, NumberTests, Samplable};
use kzen_paillier::{Add, Decrypt, Encrypt, KeyGeneration, Mul};
use vstd::prelude::*;

verus! {

/// The plaintext that the Paillier decryption with the key of modulus `n`
/// returns for the ciphertext `c`; a fixed function of the two integers.
pub uninterp spec fn dec_of(n: int, c: int) -> int;

/// Whether `c` is a proper ciphertext of the modulus `n`: a residue that
/// the cipher's own operations produce, invertible modulo `n` squared.
/// Encryption establishes it, and the two homomorphic operations preserve
/// it.  The homomorphic identities below hold only for such ciphertexts;
/// for an arbitrary residue sharing a factor with the modulus they fail,
/// so they are conditioned on this predicate.
pub uninterp spec fn ct_ok(n: int, c: int) -> bool;

/// An opaque Paillier ciphertext: the big-endian bytes of its integer.
#[derive(Debug)]
pub struct RawCiphertext {
    pub b: Vec<u8>,
}

impl View for RawCiphertext {
    type V = nat;

    open spec fn view(&self) -> nat {
        be(self.b@)
    }
}

impl Clone for RawCiphertext {
    fn clone(&self) -> (r: RawCiphertext)
        ensures
            r@ == self@,
    {
        RawCiphertext { b: clone_bytes(&self.b) }
    }
}

/// The public half of a Paillier key pair: the modulus N.  Only key
/// generation constructs it.
#[derive(Debug)]
pub struct Enc {
    n: Vec<u8>,
}

impl Clone for Enc {
    fn clone(&self) -> (r: Enc)
        ensures
            r@ == self@,
            r.wf() == self.wf(),
    {
        Enc { n: clone_bytes(&self.n) }
    }
}

impl View for Enc {
    type V = nat;

    closed spec fn view(&self) -> nat {
        be(self.n@)
    }
}

impl Enc {
    pub closed spec fn wf(&self) -> bool {
        minimal(self.n@) && be(self.n@) >= 4
    }

    /// The modulus as a plain integer.
    pub fn modulus(&self) -> (r: Mint)
        requires
            self.wf(),
        ensures
            r@ == self@,
            r.wf(),
    {
        Mint { neg: false, mag: clone_bytes(&self.n) }
    }

    /// Relies on the paillier crate's key generation: a fresh modulus, the
    /// product of two distinct primes of `(bs + 1) / 2` bits each.  Widths
    /// below the 2048-bit floor are excluded: the prime sampler trial-divides
    /// by the first primes and would reject every tiny candidate forever.
    #[verifier::external_body]
    pub fn new(bs: usize) -> (r: Enc)
        requires
            2047 <= bs,
            bs <= 16384,
        ensures
            r.wf(),
    {
        let kp = kzen_paillier::Paillier::keypair_with_modulus_size(bs + 1);
        let (ek, _dk) = kp.keys();
        Enc { n: ek.n.to_bytes() }
    }

    /// Relies on curv's `sample_below`: a value below the modulus; every
    /// outcome lies in `[0, N)`.
    #[verifier::external_body]
    pub fn random_bigint(&self) -> (r: Mint)
        requires
            self.wf(),
        ensures
            0 <= r@ < self@,
            r.wf(),
    {
        let n = curv::BigInt::from_bytes(&self.n[..]);
        let v = curv::BigInt::sample_below(&n);
        Mint { neg: false, mag: if curv::BigInt::is_zero(&v) { Vec::new() } else { v.to_bytes() } }
    }

    /// Relies on the paillier crate's encryption: decrypting the result
    /// under the key of this modulus gives back the plaintext.
    #[verifier::external_body]
    pub fn encrypt(&self, m: &Mint) -> (r: RawCiphertext)
        requires
            self.wf(),
            m.wf(),
            0 <= m@ < self@,
        ensures
            dec_of(self@ as int, r@ as int) == m@,
            ct_ok(self@ as int, r@ as int),
            minimal(r.b@),
    {
        let n = curv::BigInt::from_bytes(&self.n[..]);
        let ek = kzen_paillier::EncryptionKey { nn: &n * &n, n };
        let mb = curv::BigInt::from_bytes(&m.mag[..]);
        let c = kzen_paillier::Paillier::encrypt(&ek, kzen_paillier::RawPlaintext::from(&mb));
        let cb: curv::BigInt = c.0.into_owned();
        RawCiphertext { b: if curv::BigInt::is_zero(&cb) { Vec::new() } else { cb.to_bytes() } }
    }

    /// Relies on the paillier crate's homomorphic addition: the product of
    /// two proper ciphertexts modulo N squared encrypts the sum of their
    /// plaintexts modulo N, and is again a proper ciphertext.
    #[verifier::external_body]
    pub fn add(&self, a: &RawCiphertext, b: &RawCiphertext) -> (r: RawCiphertext)
        requires
            self.wf(),
        ensures
            ct_ok(self@ as int, a@ as int) && ct_ok(self@ as int, b@ as int) ==> dec_of(
                self@ as int,
                r@ as int,
            ) == (dec_of(self@ as int, a@ as int) + dec_of(self@ as int, b@ as int)) % (
            self@ as int),
            ct_ok(self@ as int, a@ as int) && ct_ok(self@ as int, b@ as int) ==> ct_ok(
                self@ as int,
                r@ as int,
            ),
            minimal(r.b@),
    {
        let n = curv::BigInt::from_bytes(&self.n[..]);
        let ek = kzen_paillier::EncryptionKey { nn: &n * &n, n };
        let ca = kzen_paillier::RawCiphertext::from(curv::BigInt::from_bytes(&a.b[..]));
        let cb = kzen_paillier::RawCiphertext::from(curv::BigInt::from_bytes(&b.b[..]));
        let c = kzen_paillier::Paillier::add(&ek, ca, cb);
        let cv: curv::BigInt = c.0.into_owned();
        RawCiphertext { b: if curv::BigInt::is_zero(&cv) { Vec::new() } else { cv.to_bytes() } }
    }

    /// Relies on the paillier crate's homomorphic multiplication: raising a
    /// ciphertext to a cleartext power encrypts the product of the
    /// plaintext with that cleartext modulo N.  The identity holds for
    /// every residue (a degenerate prime component decrypts to zero and
    /// stays zero under powers); a proper ciphertext stays proper.
    #[verifier::external_body]
    pub fn mul(&self, a: &RawCiphertext, k: &Mint) -> (r: RawCiphertext)
        requires
            self.wf(),
            k.wf(),
            k@ >= 0,
        ensures
            dec_of(self@ as int, r@ as int) == (k@ * dec_of(self@ as int, a@ as int)) % (
            self@ as int),
            ct_ok(self@ as int, a@ as int) ==> ct_ok(self@ as int, r@ as int),
            minimal(r.b@),
    {
        let n = curv::BigInt::from_bytes(&self.n[..]);
        let ek = kzen_paillier::EncryptionKey { nn: &n * &n, n };
        let ca = kzen_paillier::RawCiphertext::from(curv::BigInt::from_bytes(&a.b[..]));
        let kb = kzen_paillier::RawPlaintext::from(curv::BigInt::from_bytes(&k.mag[..]));
        let c = kzen_paillier::Paillier::mul(&ek, ca, kb);
        let cv: curv::BigInt = c.0.into_owned();
        RawCiphertext { b: if curv::BigInt::is_zero(&cv) { Vec::new() } else { cv.to_bytes() } }
    }
}

/// A full Paillier key pair: the public modulus and the two primes.  Only
/// key generation constructs it.
#[derive(Debug)]
pub struct Dec {
    enc: Enc,
    p: Vec<u8>,
    q: Vec<u8>,
}

impl Clone for Dec {
    fn clone(&self) -> (r: Dec)
        ensures
            r@ == self@,
            r.wf() == self.wf(),
    {
        Dec { enc: self.enc.clone(), p: clone_bytes(&self.p), q: clone_bytes(&self.q) }
    }
}

impl View for Dec {
    type V = nat;

    closed spec fn view(&self) -> nat {
        self.enc@
    }
}

impl Dec {
    pub closed spec fn wf(&self) -> bool {
        self.enc.wf()
    }

    /// The public half of the key pair.
    pub fn enc(&self) -> (r: &Enc)
        ensures
            r@ == self@,
            r.wf() == self.wf(),
    {
        &self.enc
    }

    /// Relies on the paillier crate's key generation, with the modulus
    /// width clamped to at least 2048 bits: the modulus is the product of
    /// two distinct primes of at least 1024 bits each, so it is at least
    /// 256 to the power 128.
    #[verifier::external_body]
    pub fn new(bs: usize) -> (r: Dec)
        requires
            bs <= 16384,
        ensures
            r.wf(),
            r@ >= pow256(128),
    {
        let bs = if bs < 2047 { 2047 } else { bs };
        let kp = kzen_paillier::Paillier::keypair_with_modulus_size(bs + 1);
        let (ek, dk) = kp.keys();
        Dec { enc: Enc { n: ek.n.to_bytes() }, p: dk.p.to_bytes(), q: dk.q.to_bytes() }
    }

    /// A value below the modulus, sampled as the public half does.
    pub fn random_bigint(&self) -> (r: Mint)
        requires
            self.wf(),
        ensures
            0 <= r@ < self@,
            r.wf(),
    {
        self.enc.random_bigint()
    }

    /// Encryption under the public half of this key pair.
    pub fn encrypt(&self, m: &Mint) -> (r: RawCiphertext)
        requires
            self.wf(),
            m.wf(),
            0 <= m@ < self@,
        ensures
            dec_of(self@ as int, r@ as int) == m@,
            ct_ok(self@ as int, r@ as int),
            minimal(r.b@),
    {
        self.enc.encrypt(m)
    }

    /// Relies on the paillier crate's decryption: the plaintext lies in
    /// `[0, N)` and depends only on the modulus and the ciphertext.
    #[verifier::external_body]
    pub fn decrypt(&self, c: &RawCiphertext) -> (r: Mint)
        requires
            self.wf(),
        ensures
            r@ == dec_of(self@ as int, c@ as int),
            0 <= r@ < self@,
            r.wf(),
    {
        let p = curv::BigInt::from_bytes(&self.p[..]);
        let q = curv::BigInt::from_bytes(&self.q[..]);
        let cv = kzen_paillier::RawCiphertext::from(curv::BigInt::from_bytes(&c.b[..]));
        let m = kzen_paillier::Paillier::decrypt(&kzen_paillier::DecryptionKey { p, q }, cv);
        let mv: curv::BigInt = m.0.into_owned();
        Mint { neg: false, mag: if curv::BigInt::is_zero(&mv) { Vec::new() } else { mv.to_bytes() } }
    }
}

/// Relies on curv's `sample`: a uniform value of at most 336 bits; every
/// outcome lies below 256 to the power 42.
#[verifier::external_body]
pub fn sample_beta() -> (r: Mint)
    ensures
        0 <= r@ < pow256(42),
        r.wf(),
{
    let v = <curv::BigInt as curv::arithmetic::traits::Samplable>::sample(336);
    let mag: Vec<u8> = if curv::arithmetic::traits::NumberTests::is_zero(&v) {
        Vec::new()
    } else {
        curv::arithmetic::Converter::to_bytes(&v)
    };
    Mint { neg: false, mag }
}

/// A power of 256 as an integer: the byte 1 followed by `k` zero bytes.
pub fn pow256_mint(k: usize) -> (r: Mint)
    requires
        k < 65536,
    ensures
        r@ == pow256(k as nat),
        r.wf(),
{
    let mut mag: Vec<u8> = Vec::new();
    mag.push(1u8);
    let mut i: usize = 0;
    proof {
        assert(mag@ =~= seq![1u8]);
        assert(be(mag@) == 1) by {
            assert(mag@.first() == 1u8);
            assert(mag@.drop_first() =~= Seq::<u8>::empty());
            assert(be(mag@.drop_first()) == 0);
            assert(pow256(0) == 1);
        }
    }
    while i < k
        invariant
            i <= k,
            mag@.len() == i + 1,
            mag@.first() == 1u8,
            be(mag@) == pow256(i as nat),
        decreases k - i,
    {
        let ghost old_mag = mag@;
        mag.push(0u8);
        proof {
            lemma_be_push_zero(old_mag);
        }
        i += 1;
    }
    Mint { neg: false, mag }
}

/// Appending a zero byte multiplies the value by 256.
pub proof fn lemma_be_push_zero(s: Seq<u8>)
    ensures
        be(s.push(0u8)) == 256 * be(s),
    decreases s.len(),
{
    if s.len() == 0 {
        assert(s.push(0u8) =~= seq![0u8]);
        assert(s.push(0u8).first() == 0u8);
        assert(s.push(0u8).drop_first() =~= Seq::<u8>::empty());
        assert(be(s.push(0u8).drop_first()) == 0);
        assert(pow256(0) == 1);
        assert(be(s.push(0u8)) == 0);
    } else {
        let t = s.drop_first();
        let f = s.first() as nat;
        let p1 = pow256((s.len() - 1) as nat);
        assert(s.push(0u8).drop_first() =~= t.push(0u8));
        lemma_be_push_zero(t);
        assert(s.push(0u8).first() == s.first());
        assert(be(s.push(0u8)) == f * pow256(s.len()) + be(t.push(0u8)));
        assert(pow256(s.len()) == 256 * p1);
        assert(f * (256 * p1) == 256 * (f * p1)) by (nonlinear_arith);
        assert(be(s.push(0u8)) == 256 * (f * p1) + 256 * be(t));
        assert(be(s) == f * p1 + be(t));
    }
}

} // verus!
