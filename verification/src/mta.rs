//! The multiplicative-to-additive (MtA) share conversion.  Alice holds
//! `a` and Bob holds `b`, both scalars below the group order `q`; after a
//! three-message exchange over Paillier encryption each holds an additive
//! share, and the shares sum to the product `a * b` exactly over the
//! integers, hence also modulo `q`.
//!
//! Bob draws his blinding term below 256^42, far below the modulus floor
//! 256^128 that he demands of Alice's key, so the homomorphic sum
//! `a * b + beta'` never wraps; Alice rejects any ciphertext whose
//! plaintext reaches 256^65, which an honest response never does.

use crate::bigint::{be, clone_bytes, mint_lt, mint_neg, mint_zero, pow256, Mint};
use crate::cipher::{ct_ok, dec_of, pow256_mint, sample_beta};
use crate::scalar::q_value;
use crate::ProtocolError;
use vstd::arithmetic::div_mod::lemma_small_mod;
use vstd::prelude::*;

pub use crate::cipher::Dec;
pub use crate::cipher::Enc;
pub use crate::cipher::RawCiphertext;

verus! {

/// The Alice role: owns the Paillier key pair, sends the encryption of her
/// secret, and decrypts Bob's response into her share.
#[derive(Debug)]
pub struct Alice {
    pub dec: Dec,
    pub m: Mint,
    pub a: Mint,
    pub fin: bool,
}

impl Alice {
    /// The modulus of this role's key pair.
    pub open spec fn n_val(&self) -> nat {
        self.dec@
    }

    pub open spec fn inv(&self) -> bool {
        &&& self.dec.wf()
        &&& self.m.wf()
        &&& self.a.wf()
        &&& 0 <= self.m@ < q_value()
        &&& self.n_val() >= pow256(128)
    }

    /// A fresh Alice with her own key pair.
    pub fn new(bs: usize, m: Mint) -> (r: Alice)
        requires
            m.wf(),
            0 <= m@ < q_value(),
            bs <= 16384,
        ensures
            r.inv(),
            r.m@ == m@,
            r.a@ == 0,
            !r.fin,
    {
        let dec = Dec::new(bs);
        proof {
            crate::scalar::lemma_q_bounds();
            crate::bigint::lemma_pow256_mono(32, 128);
        }
        Alice { dec, m, a: mint_zero(), fin: false }
    }

    /// The first message: the public key and the encryption of the secret.
    pub fn to_bob(&self) -> (r: (Enc, RawCiphertext))
        requires
            self.inv(),
        ensures
            r.0@ == self.n_val(),
            r.0.wf(),
            dec_of(self.n_val() as int, r.1@ as int) == self.m@,
            ct_ok(self.n_val() as int, r.1@ as int),
    {
        proof {
            crate::scalar::lemma_q_bounds();
            crate::bigint::lemma_pow256_mono(32, 128);
        }
        let c = self.dec.encrypt(&self.m);
        (self.dec.enc().clone(), c)
    }

    /// Decrypts Bob's response into the additive share.  Decryption here is
    /// total, so "malformed" is read as a bound on the plaintext: an honest
    /// response always decrypts below 256^65, and anything at or above that
    /// bound is rejected.  Within the bound, values at or above the group
    /// order are accepted as they stand; the consuming layer reduces them.
    pub fn from_bob(&mut self, data: &RawCiphertext) -> (r: Result<(), ProtocolError>)
        requires
            old(self).inv(),
        ensures
            final(self).inv(),
            final(self).m@ == old(self).m@,
            final(self).n_val() == old(self).n_val(),
            r is Ok <==> dec_of(old(self).n_val() as int, data@ as int) < pow256(65),
            r is Ok ==> final(self).fin && final(self).a@ == dec_of(
                old(self).n_val() as int,
                data@ as int,
            ),
            r is Err ==> final(self).fin == old(self).fin && final(self).a@ == old(self).a@ && r
                == Err::<(), ProtocolError>(ProtocolError::DecryptionFailure),
    {
        let v = self.dec.decrypt(data);
        let bound = pow256_mint(65);
        if mint_lt(&v, &bound) {
            self.a = v;
            self.fin = true;
            Ok(())
        } else {
            Err(ProtocolError::DecryptionFailure)
        }
    }
}

/// The Bob role: blinds the product homomorphically and keeps the negated
/// blinding term as his share.
#[derive(Debug)]
pub struct Bob {
    pub m: Mint,
    pub a: Mint,
    pub fin: bool,
}

impl Bob {
    pub open spec fn inv(&self) -> bool {
        &&& self.m.wf()
        &&& self.a.wf()
        &&& 0 <= self.m@ < q_value()
    }

    pub fn new(m: Mint) -> (r: Bob)
        requires
            m.wf(),
            0 <= m@ < q_value(),
        ensures
            r.inv(),
            r.m@ == m@,
            r.a@ == 0,
            !r.fin,
    {
        Bob { m, a: mint_zero(), fin: false }
    }

    /// Answers Alice's message: multiplies her ciphertext by the secret,
    /// adds an encrypted blinding term drawn below 256^42, and keeps the
    /// negated term as the share.  A key whose modulus is below 256^128 is
    /// rejected, since the no-wrap argument needs that floor.  The response
    /// equation is promised for a proper incoming ciphertext, as the first
    /// message of an honest Alice always is; for arbitrary bytes the
    /// homomorphic identities of the cipher do not hold.
    pub fn from_alice(&mut self, enc: &Enc, data: &RawCiphertext) -> (r: Result<
        RawCiphertext,
        ProtocolError,
    >)
        requires
            old(self).inv(),
            enc.wf(),
        ensures
            final(self).inv(),
            final(self).m@ == old(self).m@,
            r is Ok <==> enc@ >= pow256(128),
            r matches Ok(c) ==> final(self).fin && -(pow256(42) as int) < final(self).a@ <= 0
                && (ct_ok(enc@ as int, data@ as int) ==> dec_of(enc@ as int, c@ as int) == ((old(
                self,
            ).m@ * dec_of(enc@ as int, data@ as int)) % (enc@ as int) + (-final(self).a@)) % (
            enc@ as int)),
            r is Err ==> final(self).fin == old(self).fin && final(self).a@ == old(self).a@ && r
                == Err::<RawCiphertext, ProtocolError>(ProtocolError::DecryptionFailure),
    {
        let nb = enc.modulus();
        let floor = pow256_mint(128);
        if mint_lt(&nb, &floor) {
            return Err(ProtocolError::DecryptionFailure);
        }
        let bp = sample_beta();
        let c1 = enc.mul(data, &self.m);
        proof {
            crate::bigint::lemma_pow256_mono(42, 128);
        }
        let c2 = enc.encrypt(&bp);
        let out = enc.add(&c1, &c2);
        self.a = mint_neg(&bp);
        self.fin = true;
        Ok(out)
    }
}

/// Which role a party currently holds.
#[derive(Debug)]
pub enum Role {
    Init(),
    A(Alice),
    B(Bob),
}

impl Role {
    /// The Alice role, which the caller has established.
    pub fn as_alice_mut(&mut self) -> (r: &mut Alice)
        requires
            *old(self) is A,
        ensures
            *r == (*old(self))->A_0,
            *final(self) == Role::A(*final(r)),
    {
        match self {
            Role::A(a) => a,
            _ => vstd::pervasive::unreached(),
        }
    }

    /// The Bob role, which the caller has established.
    pub fn as_bob_mut(&mut self) -> (r: &mut Bob)
        requires
            *old(self) is B,
        ensures
            *r == (*old(self))->B_0,
            *final(self) == Role::B(*final(r)),
    {
        match self {
            Role::B(b) => b,
            _ => vstd::pervasive::unreached(),
        }
    }
}

/// One endpoint of a pairwise MtA exchange: a secret below the group
/// order, and the role it plays once the exchange starts.
#[derive(Debug)]
pub struct Party {
    pub bitsize: usize,
    pub m: Mint,
    pub role: Role,
}

impl Party {
    pub open spec fn inv(&self) -> bool {
        &&& self.m.wf()
        &&& 0 <= self.m@ < q_value()
        &&& self.bitsize <= 16384
        &&& match self.role {
            Role::Init() => true,
            Role::A(a) => a.inv() && a.m@ == self.m@,
            Role::B(b) => b.inv() && b.m@ == self.m@,
        }
    }

    /// Whether this endpoint has absorbed the final message of its role.
    pub open spec fn fin(&self) -> bool {
        match self.role {
            Role::Init() => false,
            Role::A(a) => a.fin,
            Role::B(b) => b.fin,
        }
    }

    /// The additive share, once the role is finished.
    pub open spec fn share(&self) -> int {
        match self.role {
            Role::Init() => 0,
            Role::A(a) => a.a@,
            Role::B(b) => b.a@,
        }
    }

    pub fn new(bs: usize, m: Mint) -> (r: Party)
        requires
            m.wf(),
            0 <= m@ < q_value(),
            bs <= 16384,
        ensures
            r.inv(),
            r.m@ == m@,
            r.role is Init,
            r.bitsize == bs,
    {
        Party { bitsize: bs, m, role: Role::Init() }
    }

    /// Whether the Alice role is installed.
    pub fn is_alice(&self) -> (r: bool)
        ensures
            r == (self.role is A),
    {
        match &self.role {
            Role::A(_) => true,
            _ => false,
        }
    }

    /// Whether the Bob role is installed.
    pub fn is_bob(&self) -> (r: bool)
        ensures
            r == (self.role is B),
    {
        match &self.role {
            Role::B(_) => true,
            _ => false,
        }
    }

    pub fn get_secret(&self) -> (r: &Mint)
        ensures
            r@ == self.m@,
    {
        &self.m
    }

    pub fn as_alice(&mut self) -> (r: &mut Alice)
        requires
            old(self).role is A,
        ensures
            *r == old(self).role->A_0,
            final(self).role == Role::A(*final(r)),
            final(self).m == old(self).m,
            final(self).bitsize == old(self).bitsize,
    {
        self.role.as_alice_mut()
    }

    pub fn as_bob(&mut self) -> (r: &mut Bob)
        requires
            old(self).role is B,
        ensures
            *r == old(self).role->B_0,
            final(self).role == Role::B(*final(r)),
            final(self).m == old(self).m,
            final(self).bitsize == old(self).bitsize,
    {
        self.role.as_bob_mut()
    }

    /// The secret and the share, once the role has finished.
    pub fn get_result(&self) -> (r: Option<(&Mint, &Mint)>)
        requires
            self.inv(),
        ensures
            r is Some <==> self.fin(),
            r matches Some(t) ==> t.0@ == self.m@ && t.1@ == self.share(),
    {
        match &self.role {
            Role::A(alice) if alice.fin => Some((&alice.m, &alice.a)),
            Role::B(bob) if bob.fin => Some((&bob.m, &bob.a)),
            _ => None,
        }
    }

    /// Installs a fresh Alice role, discarding any previous role.
    pub fn alicization(&mut self)
        requires
            old(self).inv(),
        ensures
            final(self).inv(),
            final(self).m@ == old(self).m@,
            final(self).bitsize == old(self).bitsize,
            final(self).role is A,
            !final(self).fin(),
            final(self).share() == 0,
    {
        let m = Mint { neg: self.m.neg, mag: clone_bytes(&self.m.mag) };
        self.role = Role::A(Alice::new(self.bitsize, m));
    }

    /// Installs a fresh Bob role, discarding any previous role.
    pub fn bobization(&mut self)
        requires
            old(self).inv(),
        ensures
            final(self).inv(),
            final(self).m@ == old(self).m@,
            final(self).bitsize == old(self).bitsize,
            final(self).role is B,
            !final(self).fin(),
            final(self).share() == 0,
    {
        let m = Mint { neg: self.m.neg, mag: clone_bytes(&self.m.mag) };
        self.role = Role::B(Bob::new(m));
    }
}

/// MtA correctness: when Bob answers an honest encryption of `a` with his
/// blinded response, the plaintext of that response is exactly `a * b +
/// beta'` with no wrap-around, it passes Alice's acceptance bound, and the
/// two shares `alpha = a * b + beta'` and `-beta'` sum to `a * b`, so they
/// sum to `a * b` modulo the group order.
pub proof fn lemma_mta_exchange(n: int, a: int, b: int, bp: int, alpha: int)
    requires
        n >= pow256(128),
        0 <= a < q_value(),
        0 <= b < q_value(),
        0 <= bp < pow256(42),
        alpha == ((b * a) % n + bp) % n,
    ensures
        alpha == a * b + bp,
        alpha < pow256(65),
        (alpha + (-bp)) % (q_value() as int) == (a * b) % (q_value() as int),
{
    crate::scalar::lemma_q_bounds();
    crate::bigint::lemma_pow256_adds(32, 32);
    crate::bigint::lemma_pow256_mono(42, 64);
    crate::bigint::lemma_pow256_mono(65, 128);
    crate::bigint::lemma_pow256_pos(64);
    let q = q_value() as int;
    let p32 = pow256(32) as int;
    let p42 = pow256(42) as int;
    let p64 = pow256(64) as int;
    let p65 = pow256(65) as int;
    assert(p32 * p32 == p64) by (nonlinear_arith)
        requires
            pow256(32) * pow256(32) == pow256(64),
            p32 == pow256(32) as int,
            p64 == pow256(64) as int,
    {
    }
    assert(q * q <= p64) by (nonlinear_arith)
        requires
            0 < q <= p32,
            p32 * p32 == p64,
    {
    }
    assert(b * a < p64) by (nonlinear_arith)
        requires
            0 <= a < q,
            0 <= b < q,
            q * q <= p64,
    {
    }
    assert(p65 == 256 * p64);
    assert(p42 <= p64);
    assert(b * a + bp < 2 * p64);
    assert(2 * p64 < 256 * p64);
    assert(b * a + bp < p65);
    assert(p65 <= n);
    lemma_small_mod((b * a) as nat, n as nat);
    assert((b * a) % n == b * a);
    lemma_small_mod((b * a + bp) as nat, n as nat);
    assert((b * a + bp) % n == b * a + bp);
    assert(alpha == b * a + bp);
    assert(b * a == a * b) by (nonlinear_arith);
    assert(alpha + (-bp) == a * b);
}

} // verus!
