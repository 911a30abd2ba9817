//! Arbitrary-precision signed integers, held as a sign and a big-endian
//! magnitude.  The mathematical value of a `Mint` is its view, an `int`.
//! The heavy arithmetic (addition, multiplication) is delegated to gmp;
//! canonical-form handling and comparison are verified here.

use vstd::arithmetic::mul::*;
use vstd::prelude::*;

verus! {

/// 256 raised to the power `k`: the weight of the `k`-th byte from the end.
pub open spec fn pow256(k: nat) -> nat
    decreases k,
{
    if k == 0 {
        1
    } else {
        256 * pow256((k - 1) as nat)
    }
}

/// Value of a big-endian byte string.
pub open spec fn be(s: Seq<u8>) -> nat
    decreases s.len(),
{
    if s.len() == 0 {
        0
    } else {
        (s.first() as nat) * pow256((s.len() - 1) as nat) + be(s.drop_first())
    }
}

/// A magnitude in canonical form carries no leading zero byte.
pub open spec fn minimal(s: Seq<u8>) -> bool {
    s.len() > 0 ==> s.first() != 0
}

pub proof fn lemma_pow256_pos(k: nat)
    ensures
        pow256(k) >= 1,
    decreases k,
{
    if k > 0 {
        lemma_pow256_pos((k - 1) as nat);
    }
}

pub proof fn lemma_pow256_adds(a: nat, b: nat)
    ensures
        pow256(a + b) == pow256(a) * pow256(b),
    decreases a,
{
    if a == 0 {
        assert(pow256(0 + b) == 1 * pow256(b)) by (nonlinear_arith);
    } else {
        let a1 = (a - 1) as nat;
        lemma_pow256_adds(a1, b);
        let x = pow256(a1) as int;
        let y = pow256(b) as int;
        assert((a + b - 1) as nat == a1 + b);
        assert(pow256(a + b) == 256 * (x * y));
        assert(256 * (x * y) == (256 * x) * y) by (nonlinear_arith);
        assert(pow256(a) == 256 * x);
        assert(pow256(a + b) == pow256(a) * pow256(b));
    }
}

pub proof fn lemma_pow256_mono(a: nat, b: nat)
    requires
        a <= b,
    ensures
        pow256(a) <= pow256(b),
    decreases b,
{
    if a < b {
        lemma_pow256_mono(a, (b - 1) as nat);
        lemma_pow256_pos((b - 1) as nat);
    }
}

/// A byte string of length `L` holds a value below `256^L`.
pub proof fn lemma_be_bound(s: Seq<u8>)
    ensures
        be(s) < pow256(s.len()),
    decreases s.len(),
{
    if s.len() == 0 {
    } else {
        let l1 = (s.len() - 1) as nat;
        lemma_be_bound(s.drop_first());
        lemma_pow256_pos(l1);
        assert((s.first() as nat) * pow256(l1) + pow256(l1) == (s.first() as nat + 1) * pow256(l1))
            by (nonlinear_arith);
        lemma_mul_inequality(s.first() as int + 1, 256, pow256(l1) as int);
    }
}

/// The first byte gives a lower bound on the value.
pub proof fn lemma_be_lower(s: Seq<u8>)
    requires
        s.len() > 0,
    ensures
        be(s) >= (s.first() as nat) * pow256((s.len() - 1) as nat),
{
}

/// A leading zero byte does not change the value.
pub proof fn lemma_be_drop_leading_zero(s: Seq<u8>)
    requires
        s.len() > 0,
        s.first() == 0,
    ensures
        be(s) == be(s.drop_first()),
{
}

/// Among equal-length strings that agree up to position `k` and differ there,
/// the byte at `k` decides the order.
pub proof fn lemma_be_lex(a: Seq<u8>, b: Seq<u8>, k: int)
    requires
        a.len() == b.len(),
        0 <= k < a.len(),
        forall|j: int| 0 <= j < k ==> a[j] == b[j],
        a[k] < b[k],
    ensures
        be(a) < be(b),
    decreases k,
{
    let l1 = (a.len() - 1) as nat;
    if k == 0 {
        lemma_be_bound(a.drop_first());
        lemma_pow256_pos(l1);
        assert((a.first() as nat) * pow256(l1) + pow256(l1) == (a.first() as nat + 1) * pow256(l1))
            by (nonlinear_arith);
        lemma_mul_inequality(a.first() as int + 1, b.first() as int, pow256(l1) as int);
        assert(be(b) >= (b.first() as nat) * pow256(l1));
    } else {
        let ta = a.drop_first();
        let tb = b.drop_first();
        assert(forall|j: int| 0 <= j < k - 1 ==> ta[j] == tb[j]);
        assert(ta[k - 1] < tb[k - 1]);
        lemma_be_lex(ta, tb, k - 1);
    }
}

/// A shorter canonical string holds a smaller value than a longer one.
pub proof fn lemma_be_shorter(a: Seq<u8>, b: Seq<u8>)
    requires
        a.len() < b.len(),
        minimal(b),
    ensures
        be(a) < be(b),
{
    let lb1 = (b.len() - 1) as nat;
    lemma_be_bound(a);
    lemma_pow256_mono(a.len(), lb1);
    lemma_be_lower(b);
    lemma_pow256_pos(lb1);
    assert((b.first() as nat) * pow256(lb1) >= 1 * pow256(lb1)) by {
        lemma_mul_inequality(1, b.first() as int, pow256(lb1) as int);
    }
}

/// Equal-length strings with equal values are equal.
pub proof fn lemma_be_injective_eqlen(a: Seq<u8>, b: Seq<u8>)
    requires
        a.len() == b.len(),
        be(a) == be(b),
    ensures
        a =~= b,
    decreases a.len(),
{
    if a.len() == 0 {
    } else {
        if a.first() < b.first() {
            lemma_be_lex(a, b, 0);
        }
        if b.first() < a.first() {
            lemma_be_lex(b, a, 0);
        }
        assert(a.first() == b.first());
        lemma_be_injective_eqlen(a.drop_first(), b.drop_first());
        assert(a =~= Seq::empty().push(a.first()) + a.drop_first());
        assert(b =~= Seq::empty().push(b.first()) + b.drop_first());
    }
}

/// Canonical strings with equal values are equal.
pub proof fn lemma_be_injective(a: Seq<u8>, b: Seq<u8>)
    requires
        minimal(a),
        minimal(b),
        be(a) == be(b),
    ensures
        a =~= b,
{
    if a.len() < b.len() {
        lemma_be_shorter(a, b);
    }
    if b.len() < a.len() {
        lemma_be_shorter(b, a);
    }
    lemma_be_injective_eqlen(a, b);
}

/// An arbitrary-precision signed integer: a sign and a big-endian magnitude.
#[derive(Debug)]
pub struct Mint {
    pub neg: bool,
    pub mag: Vec<u8>,
}

impl View for Mint {
    type V = int;

    open spec fn view(&self) -> int {
        if self.neg {
            -(be(self.mag@) as int)
        } else {
            be(self.mag@) as int
        }
    }
}

impl Mint {
    /// Canonical form: no leading zero, and zero is never negative.
    pub open spec fn wf(&self) -> bool {
        minimal(self.mag@) && (self.neg ==> self.mag@.len() > 0)
    }
}

impl Clone for Mint {
    fn clone(&self) -> (r: Mint)
        ensures
            r@ == self@,
            r.wf() == self.wf(),
    {
        Mint { neg: self.neg, mag: clone_bytes(&self.mag) }
    }
}

impl PartialEq for Mint {
    fn eq(&self, other: &Mint) -> (r: bool) {
        if self.neg != other.neg {
            return false;
        }
        if self.mag.len() != other.mag.len() {
            proof {
                assert(self.mag@ != other.mag@);
            }
            return false;
        }
        let mut i: usize = 0;
        while i < self.mag.len()
            invariant
                self.mag@.len() == other.mag@.len(),
                i <= self.mag@.len(),
                self.neg == other.neg,
                forall|j: int| 0 <= j < i ==> self.mag@[j] == other.mag@[j],
            decreases self.mag@.len() - i,
        {
            if self.mag[i] != other.mag[i] {
                proof {
                    assert(self.mag@ != other.mag@);
                }
                return false;
            }
            i += 1;
        }
        proof {
            assert(self.mag@ =~= other.mag@);
        }
        true
    }
}

impl vstd::std_specs::cmp::PartialEqSpecImpl for Mint {
    open spec fn obeys_eq_spec() -> bool {
        true
    }

    open spec fn eq_spec(&self, other: &Mint) -> bool {
        self.neg == other.neg && self.mag@ == other.mag@
    }
}

/// Reads a big-endian byte string as a non-negative integer.
pub fn mint_from_bytes(bytes: &[u8]) -> (r: Mint)
    ensures
        r@ == be(bytes@),
        r.wf(),
{
    let mut k: usize = 0;
    while k < bytes.len() && bytes[k] == 0
        invariant
            k <= bytes@.len(),
            forall|j: int| 0 <= j < k ==> bytes@[j] == 0,
        decreases bytes@.len() - k,
    {
        k += 1;
    }
    let mut mag: Vec<u8> = Vec::new();
    let mut i: usize = k;
    while i < bytes.len()
        invariant
            k <= i <= bytes@.len(),
            mag@ =~= bytes@.subrange(k as int, i as int),
        decreases bytes@.len() - i,
    {
        mag.push(bytes[i]);
        i += 1;
    }
    proof {
        assert(mag@ =~= bytes@.skip(k as int));
        lemma_be_skip_zeros(bytes@, k as int);
    }
    Mint { neg: false, mag }
}

/// Dropping a prefix of zero bytes keeps the value.
pub proof fn lemma_be_skip_zeros(s: Seq<u8>, k: int)
    requires
        0 <= k <= s.len(),
        forall|j: int| 0 <= j < k ==> s[j] == 0,
    ensures
        be(s.skip(k)) == be(s),
    decreases k,
{
    if k > 0 {
        lemma_be_drop_leading_zero(s);
        assert(s.drop_first() =~= s.skip(1));
        assert(forall|j: int| 0 <= j < k - 1 ==> s.skip(1)[j] == 0);
        lemma_be_skip_zeros(s.skip(1), k - 1);
        assert(s.skip(1).skip(k - 1) =~= s.skip(k));
        assert(be(s.skip(k)) == be(s));
    } else {
        assert(s.skip(0) =~= s);
    }
}

/// The integer zero.
pub fn mint_zero() -> (r: Mint)
    ensures
        r@ == 0,
        r.wf(),
{
    Mint { neg: false, mag: Vec::new() }
}

/// The negation of an integer.
pub fn mint_neg(m: &Mint) -> (r: Mint)
    requires
        m.wf(),
    ensures
        r@ == -m@,
        r.wf(),
{
    if m.mag.len() == 0 {
        Mint { neg: false, mag: Vec::new() }
    } else {
        Mint { neg: !m.neg, mag: clone_bytes(&m.mag) }
    }
}

/// A copy of a byte vector.
pub fn clone_bytes(v: &Vec<u8>) -> (r: Vec<u8>)
    ensures
        r@ =~= v@,
{
    let mut out: Vec<u8> = Vec::new();
    let mut i: usize = 0;
    while i < v.len()
        invariant
            i <= v@.len(),
            out@ =~= v@.subrange(0, i as int),
        decreases v@.len() - i,
    {
        out.push(v[i]);
        i += 1;
    }
    out
}

/// Compares two canonical magnitudes.
fn mag_lt(a: &Vec<u8>, b: &Vec<u8>) -> (r: bool)
    requires
        minimal(a@),
        minimal(b@),
    ensures
        r == (be(a@) < be(b@)),
{
    if a.len() < b.len() {
        proof {
            lemma_be_shorter(a@, b@);
        }
        return true;
    }
    if b.len() < a.len() {
        proof {
            lemma_be_shorter(b@, a@);
        }
        return false;
    }
    let mut i: usize = 0;
    while i < a.len()
        invariant
            a@.len() == b@.len(),
            i <= a@.len(),
            forall|j: int| 0 <= j < i ==> a@[j] == b@[j],
        decreases a@.len() - i,
    {
        if a[i] < b[i] {
            proof {
                lemma_be_lex(a@, b@, i as int);
            }
            return true;
        }
        if b[i] < a[i] {
            proof {
                lemma_be_lex(b@, a@, i as int);
            }
            return false;
        }
        i += 1;
    }
    proof {
        assert(a@ =~= b@);
    }
    false
}

/// Strict order on integers in canonical form.
pub fn mint_lt(a: &Mint, b: &Mint) -> (r: bool)
    requires
        a.wf(),
        b.wf(),
    ensures
        r == (a@ < b@),
{
    if a.neg && !b.neg {
        proof {
            lemma_be_lower(a.mag@);
            lemma_pow256_pos((a.mag@.len() - 1) as nat);
            assert((a.mag@.first() as nat) * pow256((a.mag@.len() - 1) as nat) >= 1 * pow256(
                (a.mag@.len() - 1) as nat,
            )) by {
                lemma_mul_inequality(
                    1,
                    a.mag@.first() as int,
                    pow256((a.mag@.len() - 1) as nat) as int,
                );
            }
        }
        true
    } else if !a.neg && b.neg {
        false
    } else if !a.neg && !b.neg {
        mag_lt(&a.mag, &b.mag)
    } else {
        mag_lt(&b.mag, &a.mag)
    }
}

/// Relies on gmp's integer addition (`Mpz` `+`): the result is the exact sum.
#[verifier::external_body]
pub fn mint_add(a: &Mint, b: &Mint) -> (r: Mint)
    ensures
        r@ == a@ + b@,
        r.wf(),
{
    let am = gmp::mpz::Mpz::from(&a.mag[..]);
    let am = if a.neg { -am } else { am };
    let bm = gmp::mpz::Mpz::from(&b.mag[..]);
    let bm = if b.neg { -bm } else { bm };
    let s = am + bm;
    let neg = s < gmp::mpz::Mpz::zero();
    let mag: Vec<u8> = if s.is_zero() { Vec::new() } else { (&s.abs()).into() };
    Mint { neg, mag }
}

/// Relies on gmp's integer multiplication (`Mpz` `*`): the result is the
/// exact product.
#[verifier::external_body]
pub fn mint_mul(a: &Mint, b: &Mint) -> (r: Mint)
    ensures
        r@ == a@ * b@,
        r.wf(),
{
    let am = gmp::mpz::Mpz::from(&a.mag[..]);
    let am = if a.neg { -am } else { am };
    let bm = gmp::mpz::Mpz::from(&b.mag[..]);
    let bm = if b.neg { -bm } else { bm };
    let s = am * bm;
    let neg = s < gmp::mpz::Mpz::zero();
    let mag: Vec<u8> = if s.is_zero() { Vec::new() } else { (&s.abs()).into() };
    Mint { neg, mag }
}

} // verus!
